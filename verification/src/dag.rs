//! The dependency graph of a workflow.

use crate::error::{WorkflowError, WorkflowErrorView};
use crate::lists::{
    lemma_all_unmarked, lemma_filter_members, lemma_filter_step, lemma_mark, lemma_push_contains,
    lemma_some_unmarked, unmarked,
};
use crate::state::{TaskStates, TaskStatesView, TaskStatusView, TaskSuccessors};
use crate::text::{position, texts, Text};
use vstd::prelude::*;

verus! {

/// A graph of task ids in which an edge leads from a task to one that depends on it.
pub struct Dag {
    nodes: Vec<String>,
    edges: Vec<(usize, usize)>,
}

/// The content of a [`Dag`].
#[verifier::ext_equal]
pub struct DagView {
    /// The ids, in the order in which they were added.
    pub nodes: Seq<Text>,
    /// The edges, each from a task to one that depends on it, in the order in which
    /// they were added.
    pub edges: Seq<(Text, Text)>,
}

/// Whether the numbers that `rank` gives rise along every edge.
pub open spec fn ranked(edges: Seq<(Text, Text)>, rank: spec_fn(Text) -> nat) -> bool {
    forall|k: int| 0 <= k < edges.len() ==> rank((#[trigger] edges[k]).0) < rank(edges[k].1)
}

/// Whether a path of `n` edges leads from `a` to `b`.
pub open spec fn path(edges: Seq<(Text, Text)>, a: Text, b: Text, n: nat) -> bool
    decreases n,
{
    if n == 0 {
        a == b
    } else {
        exists|c: Text| #[trigger]
            edges.contains((c, b)) && path(edges, a, c, (n - 1) as nat)
    }
}

/// Whether some path leads from `a` to `b`; every node leads to itself.
pub open spec fn connected(edges: Seq<(Text, Text)>, a: Text, b: Text) -> bool {
    exists|n: nat| path(edges, a, b, n)
}

/// Whether the edges form no cycle: the ids can be numbered so that the numbers rise
/// along every edge.
pub open spec fn acyclic(edges: Seq<(Text, Text)>) -> bool {
    exists|rank: spec_fn(Text) -> nat| #[trigger] ranked(edges, rank)
}

impl DagView {
    /// The graph without nodes.
    pub open spec fn empty() -> DagView {
        DagView { nodes: Seq::empty(), edges: Seq::empty() }
    }

    /// No id occurs twice, every edge joins nodes, and there is no cycle.
    pub open spec fn wf(self) -> bool {
        &&& self.nodes.no_duplicates()
        &&& forall|k: int|
            0 <= k < self.edges.len() ==> self.nodes.contains((#[trigger] self.edges[k]).0)
                && self.nodes.contains(self.edges[k].1)
        &&& acyclic(self.edges)
    }

    /// What adding a node gives.
    pub open spec fn node_outcome(self, id: Text) -> Result<DagView, WorkflowErrorView> {
        if self.nodes.contains(id) {
            Err(WorkflowErrorView::DuplicateTaskId(id))
        } else {
            Ok(DagView { nodes: self.nodes.push(id), ..self })
        }
    }

    /// What adding an edge gives: it must join nodes and close no cycle.
    pub open spec fn edge_outcome(self, from: Text, to: Text) -> Result<
        DagView,
        WorkflowErrorView,
    > {
        if !self.nodes.contains(from) || !self.nodes.contains(to) {
            Err(WorkflowErrorView::UnknownDependency { task: to, dependency: from })
        } else if !acyclic(self.edges.push((from, to))) {
            Err(WorkflowErrorView::CycleDetected)
        } else {
            Ok(DagView { edges: self.edges.push((from, to)), ..self })
        }
    }

    /// Whether a list holds every node once, each after those that it depends on.
    pub open spec fn is_topological_order(self, order: Seq<Text>) -> bool {
        &&& order.no_duplicates()
        &&& forall|id: Text| #[trigger] order.contains(id) <==> self.nodes.contains(id)
        &&& forall|i: int, j: int|
            0 <= i < order.len() && 0 <= j < order.len() && #[trigger] self.edges.contains(
                (order[i], order[j]),
            ) ==> i < j
    }

    /// The tasks that depend directly on a task, in the order of the edges.
    pub open spec fn successors(self, id: Text) -> Seq<Text> {
        self.edges.filter(leaving(id)).map_values(|edge: (Text, Text)| edge.1)
    }

    /// The successors of every node.
    pub open spec fn successor_map(self) -> Map<Text, Seq<Text>> {
        Map::new(|id: Text| self.nodes.contains(id), |id: Text| self.successors(id))
    }

    /// Whether a task is not done, and every task that it depends on is.
    pub open spec fn is_ready(self, states: TaskStatesView, id: Text) -> bool {
        &&& !is_done(states, id)
        &&& forall|dependency: Text| #[trigger]
            self.edges.contains((dependency, id)) ==> is_done(states, dependency)
    }

    /// The tasks that are ready, in the order of the nodes.
    pub open spec fn ready_tasks(self, states: TaskStatesView) -> Seq<Text> {
        self.nodes.filter(|id: Text| self.is_ready(states, id))
    }
}

/// Whether an edge leads from a task.
pub open spec fn leaving(id: Text) -> spec_fn((Text, Text)) -> bool {
    |edge: (Text, Text)| edge.0 == id
}

/// Whether a task is done.
pub open spec fn is_done(states: TaskStatesView, id: Text) -> bool {
    states.status.contains_key(id) && states.status[id].done()
}

impl View for Dag {
    type V = DagView;

    closed spec fn view(&self) -> DagView {
        DagView { nodes: texts(self.nodes@), edges: edge_views(texts(self.nodes@), self.edges@) }
    }
}

/// The edges by ids.
closed spec fn edge_views(nodes: Seq<Text>, edges: Seq<(usize, usize)>) -> Seq<(Text, Text)> {
    edges.map_values(|edge: (usize, usize)| (nodes[edge.0 as int], nodes[edge.1 as int]))
}

/// Among the nodes that are not marked, one has the lowest rank.
proof fn lemma_lowest(
    nodes: Seq<Text>,
    marks: Seq<bool>,
    rank: spec_fn(Text) -> nat,
    some: int,
) -> (low: int)
    requires
        nodes.len() == marks.len(),
        0 <= some < marks.len(),
        !marks[some],
    ensures
        0 <= low < marks.len(),
        !marks[low],
        forall|j: int|
            0 <= j < marks.len() && !marks[j] ==> rank(nodes[low]) <= rank(#[trigger] nodes[j]),
    decreases rank(nodes[some]),
{
    if exists|j: int|
        0 <= j < marks.len() && !marks[j] && rank(#[trigger] nodes[j]) < rank(nodes[some]) {
        let j = choose|j: int|
            0 <= j < marks.len() && !marks[j] && rank(#[trigger] nodes[j]) < rank(nodes[some]);
        lemma_lowest(nodes, marks, rank, j)
    } else {
        some
    }
}

/// The rank does not fall along a path, and rises along one that has edges.
proof fn lemma_path_rises(
    edges: Seq<(Text, Text)>,
    rank: spec_fn(Text) -> nat,
    a: Text,
    b: Text,
    n: nat,
)
    requires
        ranked(edges, rank),
        path(edges, a, b, n),
    ensures
        rank(a) + n <= rank(b),
    decreases n,
{
    if n > 0 {
        let c = choose|c: Text| #[trigger]
            edges.contains((c, b)) && path(edges, a, c, (n - 1) as nat);
        let k = choose|k: int| 0 <= k < edges.len() && edges[k] == (c, b);
        assert(rank(edges[k].0) < rank(edges[k].1));
        lemma_path_rises(edges, rank, a, c, (n - 1) as nat);
    }
}

/// A further edge takes a path along.
proof fn lemma_path_extends(edges: Seq<(Text, Text)>, a: Text, b: Text, c: Text)
    requires
        connected(edges, a, b),
        edges.contains((b, c)),
    ensures
        connected(edges, a, c),
{
    let n = choose|n: nat| path(edges, a, b, n);
    assert(path(edges, a, c, n + 1));
}

/// An edge closes a cycle exactly where a path leads back from its end to its start.
proof fn lemma_edge_acyclic(edges: Seq<(Text, Text)>, from: Text, to: Text)
    requires
        acyclic(edges),
    ensures
        acyclic(edges.push((from, to))) <==> !connected(edges, to, from),
{
    let new = edges.push((from, to));
    let rank = choose|rank: spec_fn(Text) -> nat| #[trigger] ranked(edges, rank);
    if connected(edges, to, from) {
        if acyclic(new) {
            let other = choose|rank: spec_fn(Text) -> nat| #[trigger] ranked(new, rank);
            assert forall|k: int| 0 <= k < edges.len() implies other((#[trigger] edges[k]).0)
                < other(edges[k].1) by {
                assert(new[k] == edges[k]);
            }
            let n = choose|n: nat| path(edges, to, from, n);
            lemma_path_rises(edges, other, to, from, n);
            assert(new[edges.len() as int] == (from, to));
            assert(false);
        }
    } else {
        let shift = rank(from) + 1;
        let raised = |id: Text|
            if connected(edges, to, id) {
                rank(id) + shift
            } else {
                rank(id)
            };
        assert(path(edges, to, to, 0));
        assert forall|k: int| 0 <= k < new.len() implies raised((#[trigger] new[k]).0) < raised(
            new[k].1,
        ) by {
            if k < edges.len() {
                assert(new[k] == edges[k]);
                assert(edges.contains((edges[k].0, edges[k].1)));
                if connected(edges, to, edges[k].0) {
                    lemma_path_extends(edges, to, edges[k].0, edges[k].1);
                }
            }
        }
        assert(ranked(new, raised));
    }
}

/// A graph without cycles has no path from a node back to itself.
pub proof fn law_acyclic_no_return(edges: Seq<(Text, Text)>, id: Text, n: nat)
    requires
        acyclic(edges),
        n > 0,
    ensures
        !path(edges, id, id, n),
{
    let rank = choose|rank: spec_fn(Text) -> nat| #[trigger] ranked(edges, rank);
    if path(edges, id, id, n) {
        lemma_path_rises(edges, rank, id, id, n);
    }
}

/// A task is ready exactly where it has neither completed nor been left out, and every task
/// from which an edge leads to it has.
pub proof fn law_ready(dag: DagView, states: TaskStatesView, id: Text)
    ensures
        dag.ready_tasks(states).contains(id) <==> {
            &&& dag.nodes.contains(id)
            &&& match states.get(id) {
                Some(TaskStatusView::Completed) => false,
                Some(TaskStatusView::Skipped) => false,
                Some(TaskStatusView::SkippedDueToDependencyFailure) => false,
                _ => true,
            }
            &&& forall|dependency: Text| #[trigger]
                dag.edges.contains((dependency, id)) ==> match states.get(dependency) {
                    Some(TaskStatusView::Completed) => true,
                    Some(TaskStatusView::Skipped) => true,
                    Some(TaskStatusView::SkippedDueToDependencyFailure) => true,
                    _ => false,
                }
        },
{
    let ready = |other: Text| dag.is_ready(states, other);
    lemma_filter_members(dag.nodes, ready);
    assert(dag.ready_tasks(states).contains(id) <==> dag.nodes.contains(id) && ready(id));
}

/// An edge can be added exactly where it joins nodes and no path leads back from its end to
/// its start; nothing but the edge is added.
pub proof fn law_edge_added(dag: DagView, from: Text, to: Text)
    requires
        dag.wf(),
    ensures
        match dag.edge_outcome(from, to) {
            Ok(new) => dag.nodes.contains(from) && dag.nodes.contains(to) && !connected(
                dag.edges,
                to,
                from,
            ) && new.nodes == dag.nodes && new.edges == dag.edges.push((from, to)),
            Err(WorkflowErrorView::UnknownDependency { task, dependency }) => task == to
                && dependency == from && !(dag.nodes.contains(from) && dag.nodes.contains(to)),
            Err(WorkflowErrorView::CycleDetected) => dag.nodes.contains(from) && dag.nodes.contains(
                to,
            ) && connected(dag.edges, to, from),
            Err(_) => false,
        },
{
    lemma_edge_acyclic(dag.edges, from, to);
}

/// The successors of a task are those to which an edge leads from it.
pub proof fn law_successors_by_edges(dag: DagView, from: Text, to: Text)
    ensures
        dag.successors(from).contains(to) <==> dag.edges.contains((from, to)),
{
    let chosen = dag.edges.filter(leaving(from));
    let successors = dag.successors(from);
    lemma_filter_members(dag.edges, leaving(from));
    if successors.contains(to) {
        let k = choose|k: int| 0 <= k < successors.len() && successors[k] == to;
        assert(chosen.contains(chosen[k]));
        assert(chosen[k] == (from, to));
    }
    if dag.edges.contains((from, to)) {
        assert(chosen.contains((from, to)));
        let k = choose|k: int| 0 <= k < chosen.len() && chosen[k] == (from, to);
        assert(successors[k] == to);
    }
}

impl Dag {
    /// The indices of the edges are those of nodes.
    closed spec fn in_range(self) -> bool {
        forall|k: int|
            0 <= k < self.edges.len() ==> (#[trigger] self.edges@[k]).0 < self.nodes.len()
                && self.edges@[k].1 < self.nodes.len()
    }

    /// The graph is well formed.
    pub closed spec fn wf(self) -> bool {
        self.in_range() && self@.wf()
    }

    /// A well-formed graph has a well-formed content.
    pub proof fn law_content_wf(self)
        requires
            self.wf(),
        ensures
            self@.wf(),
    {
    }

    /// Creates a graph without nodes.
    pub fn new() -> (r: Dag)
        ensures
            r.wf(),
            r@ == DagView::empty(),
    {
        let r = Dag { nodes: Vec::new(), edges: Vec::new() };
        proof {
            assert(r@.nodes =~= Seq::empty());
            assert(r@.edges =~= Seq::empty());
            let rank = |id: Text| 0nat;
            assert(ranked(r@.edges, rank));
        }
        r
    }

    /// Adds a node.
    pub fn add_node(&mut self, id: &String) -> (r: Result<(), WorkflowError>)
        requires
            old(self).wf(),
        ensures
            final(self).wf(),
            match r {
                Ok(_) => old(self)@.node_outcome(id@) == Ok::<DagView, WorkflowErrorView>(
                    final(self)@,
                ),
                Err(e) => final(self)@ == old(self)@ && old(self)@.node_outcome(id@) == Err::<
                    DagView,
                    WorkflowErrorView,
                >(e@),
            },
    {
        if position(&self.nodes, id).is_some() {
            return Err(WorkflowError::DuplicateTaskId(id.clone()));
        }
        let ghost before = self@;
        self.nodes.push(id.clone());
        proof {
            assert(self@.nodes =~= before.nodes.push(id@));
            assert(self@.edges =~= before.edges);
            assert forall|k: int| 0 <= k < self@.edges.len() implies self@.nodes.contains(
                (#[trigger] self@.edges[k]).0,
            ) && self@.nodes.contains(self@.edges[k].1) by {
                lemma_push_contains(before.nodes, id@, before.edges[k].0);
                lemma_push_contains(before.nodes, id@, before.edges[k].1);
            }
        }
        Ok(())
    }

    /// Marks the nodes to which a path leads from a node.
    fn reachable_from(&self, start: usize) -> (marks: Vec<bool>)
        requires
            self.wf(),
            start < self.nodes.len(),
        ensures
            marks.len() == self.nodes.len(),
            forall|i: int|
                0 <= i < marks.len() ==> (#[trigger] marks@[i] <==> connected(
                    self@.edges,
                    self@.nodes[start as int],
                    self@.nodes[i],
                )),
    {
        let ghost edges = self@.edges;
        let ghost origin = self@.nodes[start as int];
        let mut marks: Vec<bool> = Vec::new();
        while marks.len() < self.nodes.len()
            invariant
                marks.len() <= self.nodes.len(),
                forall|i: int| 0 <= i < marks.len() ==> !marks@[i],
            decreases self.nodes.len() - marks.len(),
        {
            marks.push(false);
        }
        marks.set(start, true);
        assert(path(edges, origin, origin, 0));
        let mut changed: bool = true;
        while changed
            invariant
                self.wf(),
                start < self.nodes.len(),
                marks.len() == self.nodes.len(),
                edges == self@.edges,
                origin == self@.nodes[start as int],
                marks@[start as int],
                forall|i: int|
                    0 <= i < marks.len() && #[trigger] marks@[i] ==> connected(
                        edges,
                        origin,
                        self@.nodes[i],
                    ),
                !changed ==> forall|k: int|
                    0 <= k < self.edges.len() && marks@[(#[trigger] self.edges@[k]).0 as int]
                        ==> marks@[self.edges@[k].1 as int],
            decreases unmarked(marks@), (if changed { 1int } else { 0int }),
        {
            changed = false;
            let mut k: usize = 0;
            let ghost entry = marks@;
            while k < self.edges.len()
                invariant
                    self.wf(),
                    start < self.nodes.len(),
                    marks.len() == self.nodes.len(),
                    edges == self@.edges,
                    origin == self@.nodes[start as int],
                    marks@[start as int],
                    k <= self.edges.len(),
                    forall|i: int|
                        0 <= i < marks.len() && #[trigger] marks@[i] ==> connected(
                            edges,
                            origin,
                            self@.nodes[i],
                        ),
                    changed ==> unmarked(marks@) < unmarked(entry),
                    !changed ==> marks@ == entry,
                    !changed ==> forall|j: int|
                        0 <= j < k && marks@[(#[trigger] self.edges@[j]).0 as int]
                            ==> marks@[self.edges@[j].1 as int],
                decreases self.edges.len() - k,
            {
                let from = self.edges[k].0;
                let to = self.edges[k].1;
                if marks[from] && !marks[to] {
                    proof {
                        assert(edges[k as int] == (
                            self@.nodes[from as int],
                            self@.nodes[to as int],
                        ));
                        lemma_path_extends(
                            edges,
                            origin,
                            self@.nodes[from as int],
                            self@.nodes[to as int],
                        );
                        lemma_mark(marks@, to as int);
                    }
                    marks.set(to, true);
                    changed = true;
                }
                k = k + 1;
            }
        }
        proof {
            assert forall|i: int| 0 <= i < marks.len() implies (#[trigger] marks@[i] <==> connected(
                edges,
                origin,
                self@.nodes[i],
            )) by {
                if connected(edges, origin, self@.nodes[i]) {
                    let n = choose|n: nat| path(edges, origin, self@.nodes[i], n);
                    self.lemma_closed_marks(marks@, start as int, i, n);
                }
            }
        }
        marks
    }

    /// Marks that are closed under the edges hold every node that a path leads to.
    proof fn lemma_closed_marks(self, marks: Seq<bool>, start: int, i: int, n: nat)
        requires
            self.wf(),
            marks.len() == self.nodes.len(),
            0 <= start < marks.len(),
            0 <= i < marks.len(),
            marks[start],
            forall|k: int|
                0 <= k < self.edges.len() && marks[(#[trigger] self.edges@[k]).0 as int]
                    ==> marks[self.edges@[k].1 as int],
            path(self@.edges, self@.nodes[start], self@.nodes[i], n),
        ensures
            marks[i],
        decreases n,
    {
        let edges = self@.edges;
        let origin = self@.nodes[start];
        let id = self@.nodes[i];
        if n > 0 {
            let c = choose|c: Text| #[trigger]
                edges.contains((c, id)) && path(edges, origin, c, (n - 1) as nat);
            let k = choose|k: int| 0 <= k < edges.len() && edges[k] == (c, id);
            assert(edges[k] == (
                self@.nodes[self.edges@[k].0 as int],
                self@.nodes[self.edges@[k].1 as int],
            ));
            self.lemma_closed_marks(marks, start, self.edges@[k].0 as int, (n - 1) as nat);
            assert(self@.nodes[self.edges@[k].1 as int] == self@.nodes[i]);
        } else {
            assert(self@.nodes[start] == self@.nodes[i]);
        }
    }

    /// Adds an edge from a task to one that depends on it.
    pub fn add_edge(&mut self, from: &String, to: &String) -> (r: Result<(), WorkflowError>)
        requires
            old(self).wf(),
        ensures
            final(self).wf(),
            match r {
                Ok(_) => old(self)@.edge_outcome(from@, to@) == Ok::<DagView, WorkflowErrorView>(
                    final(self)@,
                ),
                Err(e) => final(self)@ == old(self)@ && old(self)@.edge_outcome(from@, to@) == Err::<
                    DagView,
                    WorkflowErrorView,
                >(e@),
            },
    {
        let source = position(&self.nodes, from);
        let target = position(&self.nodes, to);
        match (source, target) {
            (Some(i), Some(j)) => {
                let ghost before = self@;
                let marks = self.reachable_from(j);
                proof {
                    assert(before.nodes[i as int] == from@);
                    assert(before.nodes[j as int] == to@);
                    lemma_edge_acyclic(before.edges, from@, to@);
                }
                if marks[i] {
                    return Err(WorkflowError::CycleDetected);
                }
                self.edges.push((i, j));
                proof {
                    assert(self@.nodes =~= before.nodes);
                    assert(self@.edges =~= before.edges.push((from@, to@)));
                }
                Ok(())
            },
            _ => Err(
                WorkflowError::UnknownDependency { task: to.clone(), dependency: from.clone() },
            ),
        }
    }

    /// The ids of the graph, in the order in which they were added.
    pub fn task_ids(&self) -> (r: &Vec<String>)
        ensures
            texts(r@) == self@.nodes,
    {
        &self.nodes
    }

    /// Whether every task that a node depends on directly is marked.
    fn dependencies_marked(&self, marks: &Vec<bool>, i: usize) -> (r: bool)
        requires
            self.wf(),
            marks.len() == self.nodes.len(),
        ensures
            r <==> forall|k: int|
                0 <= k < self.edges.len() && (#[trigger] self.edges@[k]).1 == i
                    ==> marks@[self.edges@[k].0 as int],
    {
        let mut k: usize = 0;
        while k < self.edges.len()
            invariant
                self.wf(),
                marks.len() == self.nodes.len(),
                k <= self.edges.len(),
                forall|j: int|
                    0 <= j < k && (#[trigger] self.edges@[j]).1 == i
                        ==> marks@[self.edges@[j].0 as int],
            decreases self.edges.len() - k,
        {
            if self.edges[k].1 == i && !marks[self.edges[k].0] {
                return false;
            }
            k = k + 1;
        }
        true
    }

    /// Finds a node that is not marked while all that it depends on is.
    fn next_unmarked(&self, marks: &Vec<bool>) -> (i: usize)
        requires
            self.wf(),
            marks.len() == self.nodes.len(),
            unmarked(marks@) > 0,
        ensures
            i < marks.len(),
            !marks@[i as int],
            forall|k: int|
                0 <= k < self.edges.len() && (#[trigger] self.edges@[k]).1 == i
                    ==> marks@[self.edges@[k].0 as int],
    {
        let ghost nodes = self@.nodes;
        let ghost edges = self@.edges;
        let ghost rank = choose|rank: spec_fn(Text) -> nat| #[trigger] ranked(edges, rank);
        let ghost some = lemma_some_unmarked(marks@);
        let ghost low = lemma_lowest(nodes, marks@, rank, some);
        let mut i: usize = 0;
        while i < marks.len()
            invariant
                self.wf(),
                marks.len() == self.nodes.len(),
                i <= low < marks.len(),
                !marks@[low],
                nodes == self@.nodes,
                edges == self@.edges,
                ranked(edges, rank),
                forall|j: int|
                    0 <= j < marks.len() && !marks@[j] ==> rank(nodes[low]) <= rank(
                        #[trigger] nodes[j],
                    ),
            decreases marks.len() - i,
        {
            if !marks[i] && self.dependencies_marked(marks, i) {
                return i;
            }
            proof {
                if i == low {
                    let k = choose|k: int|
                        0 <= k < self.edges.len() && (#[trigger] self.edges@[k]).1 == i
                            && !marks@[self.edges@[k].0 as int];
                    assert(edges[k] == (nodes[self.edges@[k].0 as int], nodes[low]));
                    assert(rank(edges[k].0) < rank(edges[k].1));
                    assert(false);
                }
            }
            i = i + 1;
        }
        assert(false);
        i
    }

    /// Lists the nodes so that each comes after those that it depends on.
    pub fn topological_order(&self) -> (r: Vec<String>)
        requires
            self.wf(),
        ensures
            self@.is_topological_order(texts(r@)),
    {
        let ghost nodes = self@.nodes;
        let ghost edges = self@.edges;
        let mut marks: Vec<bool> = Vec::new();
        while marks.len() < self.nodes.len()
            invariant
                marks.len() <= self.nodes.len(),
                forall|i: int| 0 <= i < marks.len() ==> !marks@[i],
            decreases self.nodes.len() - marks.len(),
        {
            marks.push(false);
        }
        proof {
            lemma_all_unmarked(marks@);
        }
        let mut r: Vec<String> = Vec::new();
        while r.len() < self.nodes.len()
            invariant
                self.wf(),
                nodes == self@.nodes,
                edges == self@.edges,
                nodes.len() == self.nodes.len(),
                marks.len() == self.nodes.len(),
                r.len() + unmarked(marks@) == self.nodes.len(),
                texts(r@).no_duplicates(),
                forall|i: int|
                    0 <= i < nodes.len() ==> (#[trigger] marks@[i] <==> texts(r@).contains(
                        nodes[i],
                    )),
                forall|i: int| 0 <= i < r.len() ==> nodes.contains(#[trigger] texts(r@)[i]),
                forall|a: Text, j: int|
                    0 <= j < r.len() && #[trigger] edges.contains((a, texts(r@)[j])) ==> texts(
                        r@,
                    ).contains(a),
                forall|i: int, j: int|
                    0 <= i < r.len() && 0 <= j < r.len() && #[trigger] edges.contains(
                        (texts(r@)[i], texts(r@)[j]),
                    ) ==> i < j,
            decreases self.nodes.len() - r.len(),
        {
            let i = self.next_unmarked(&marks);
            let ghost before = texts(r@);
            let ghost id = nodes[i as int];
            r.push(self.nodes[i].clone());
            proof {
                lemma_mark(marks@, i as int);
                assert(texts(r@) =~= before.push(id));
                self.lemma_place(before, marks@, i as int);
            }
            marks.set(i, true);
        }
        proof {
            assert forall|id: Text| #[trigger] texts(r@).contains(id) <==> nodes.contains(id) by {
                if nodes.contains(id) {
                    let i = choose|i: int| 0 <= i < nodes.len() && nodes[i] == id;
                    if !marks@[i] {
                        lemma_mark(marks@, i);
                    }
                }
            }
        }
        r
    }

    /// Placing a node after all that it depends on keeps a partial order in order.
    proof fn lemma_place(self, placed: Seq<Text>, marks: Seq<bool>, i: int)
        requires
            self.wf(),
            marks.len() == self.nodes.len(),
            0 <= i < marks.len(),
            !marks[i],
            placed.no_duplicates(),
            forall|j: int|
                0 <= j < marks.len() ==> (#[trigger] marks[j] <==> placed.contains(self@.nodes[j])),
            forall|k: int|
                0 <= k < self.edges.len() && (#[trigger] self.edges@[k]).1 == i
                    ==> marks[self.edges@[k].0 as int],
            forall|a: Text, j: int|
                0 <= j < placed.len() && #[trigger] self@.edges.contains((a, placed[j]))
                    ==> placed.contains(a),
            forall|h: int, j: int|
                0 <= h < placed.len() && 0 <= j < placed.len() && #[trigger] self@.edges.contains(
                    (placed[h], placed[j]),
                ) ==> h < j,
        ensures
            ({
                let new = placed.push(self@.nodes[i]);
                &&& new.no_duplicates()
                &&& forall|j: int|
                    0 <= j < marks.len() ==> (#[trigger] marks.update(i, true)[j] <==> new.contains(
                        self@.nodes[j],
                    ))
                &&& forall|a: Text, j: int|
                    0 <= j < new.len() && #[trigger] self@.edges.contains((a, new[j]))
                        ==> new.contains(a)
                &&& forall|h: int, j: int|
                    0 <= h < new.len() && 0 <= j < new.len() && #[trigger] self@.edges.contains(
                        (new[h], new[j]),
                    ) ==> h < j
            }),
    {
        let nodes = self@.nodes;
        let edges = self@.edges;
        let id = nodes[i];
        let new = placed.push(id);
        assert(!placed.contains(id));
        assert forall|a: Text| edges.contains((a, id)) implies placed.contains(a) by {
            let k = choose|k: int| 0 <= k < edges.len() && edges[k] == (a, id);
            let source = self.edges@[k].0 as int;
            let target = self.edges@[k].1 as int;
            assert(edges[k] == (nodes[source], nodes[target]));
            assert(nodes[target] == nodes[i]);
            assert(target == i);
            assert(marks[source]);
        }
        assert forall|j: int| 0 <= j < marks.len() implies (#[trigger] marks.update(i, true)[j]
            <==> new.contains(nodes[j])) by {
            lemma_push_contains(placed, id, nodes[j]);
            if nodes[j] == id {
                assert(j == i);
            }
        }
        assert forall|a: Text, j: int|
            0 <= j < new.len() && #[trigger] edges.contains((a, new[j])) implies new.contains(
            a,
        ) by {
            if j < placed.len() {
                assert(edges.contains((a, placed[j])));
            }
            lemma_push_contains(placed, id, a);
        }
        assert forall|h: int, j: int|
            0 <= h < new.len() && 0 <= j < new.len() && #[trigger] edges.contains(
                (new[h], new[j]),
            ) implies h < j by {
            if j < placed.len() {
                assert(edges.contains((new[h], placed[j])));
                if h == placed.len() {
                    assert(placed.contains(id));
                } else {
                    assert(edges.contains((placed[h], placed[j])));
                }
            } else if h == placed.len() {
                assert(edges.contains((id, id)));
            }
        }
    }

    /// The ids of the tasks that depend directly on a task.
    pub fn successors(&self, id: &String) -> (r: Vec<String>)
        requires
            self.wf(),
        ensures
            texts(r@) == self@.successors(id@),
    {
        let ghost edges = self@.edges;
        let ghost leaves = leaving(id@);
        let ghost end = |edge: (Text, Text)| edge.1;
        let mut r: Vec<String> = Vec::new();
        let mut k: usize = 0;
        proof {
            reveal(Seq::filter);
            assert(texts(r@) =~= edges.take(0).filter(leaves).map_values(end));
        }
        while k < self.edges.len()
            invariant
                self.wf(),
                k <= self.edges.len(),
                edges == self@.edges,
                edges.len() == self.edges.len(),
                leaves == leaving(id@),
                end == (|edge: (Text, Text)| edge.1),
                texts(r@) == edges.take(k as int).filter(leaves).map_values(end),
            decreases self.edges.len() - k,
        {
            let ghost before = texts(r@);
            proof {
                lemma_filter_step(edges, k as int, leaves);
                assert(edges[k as int] == (
                    self@.nodes[self.edges@[k as int].0 as int],
                    self@.nodes[self.edges@[k as int].1 as int],
                ));
            }
            if self.nodes[self.edges[k].0] == *id {
                r.push(self.nodes[self.edges[k].1].clone());
                proof {
                    assert(texts(r@) =~= before.push(edges[k as int].1));
                    assert(edges.take(k + 1).filter(leaves).map_values(end) =~= before.push(
                        edges[k as int].1,
                    ));
                }
            }
            k = k + 1;
        }
        assert(edges.take(k as int) =~= edges);
        r
    }

    /// Lists the successors of every node.
    pub fn successor_table(&self) -> (r: TaskSuccessors)
        requires
            self.wf(),
        ensures
            r@ == self@.successor_map(),
    {
        let ghost nodes = self@.nodes;
        let mut r = TaskSuccessors::new();
        let mut i: usize = 0;
        while i < self.nodes.len()
            invariant
                self.wf(),
                i <= self.nodes.len(),
                nodes == self@.nodes,
                nodes.len() == self.nodes.len(),
                forall|id: Text| #[trigger]
                    r@.contains_key(id) <==> nodes.take(i as int).contains(id),
                forall|id: Text| #[trigger]
                    r@.contains_key(id) ==> r@[id] == self@.successors(id),
            decreases self.nodes.len() - i,
        {
            let next = self.successors(&self.nodes[i]);
            r.insert(&self.nodes[i], next);
            proof {
                assert(nodes.take(i + 1) =~= nodes.take(i as int).push(nodes[i as int]));
                assert forall|id: Text| #[trigger] nodes.take(i + 1).contains(id) <==> nodes.take(
                    i as int,
                ).contains(id) || id == nodes[i as int] by {
                    lemma_push_contains(nodes.take(i as int), nodes[i as int], id);
                }
            }
            i = i + 1;
        }
        proof {
            assert(nodes.take(i as int) =~= nodes);
            assert(r@ =~= self@.successor_map());
        }
        r
    }

    /// Whether a node is ready.
    fn is_ready(&self, states: &TaskStates, i: usize) -> (r: bool)
        requires
            self.wf(),
            i < self.nodes.len(),
        ensures
            r == self@.is_ready(states@, self@.nodes[i as int]),
    {
        let ghost nodes = self@.nodes;
        let ghost edges = self@.edges;
        let ghost id = nodes[i as int];
        if has_done(states, &self.nodes[i]) {
            return false;
        }
        let mut k: usize = 0;
        while k < self.edges.len()
            invariant
                self.wf(),
                i < self.nodes.len(),
                k <= self.edges.len(),
                nodes == self@.nodes,
                edges == self@.edges,
                edges.len() == self.edges.len(),
                id == nodes[i as int],
                forall|j: int|
                    0 <= j < k && (#[trigger] edges[j]).1 == id ==> is_done(states@, edges[j].0),
            decreases self.edges.len() - k,
        {
            proof {
                let target = self.edges@[k as int].1 as int;
                assert(edges[k as int] == (
                    nodes[self.edges@[k as int].0 as int],
                    nodes[target],
                ));
                assert(edges.contains((edges[k as int].0, edges[k as int].1)));
                if nodes[target] == id {
                    assert(target == i);
                }
            }
            if self.edges[k].1 == i && !has_done(states, &self.nodes[self.edges[k].0]) {
                return false;
            }
            k = k + 1;
        }
        true
    }

    /// Lists the nodes that are not done while all that they depend on is.
    pub fn ready_tasks(&self, states: &TaskStates) -> (r: Vec<String>)
        requires
            self.wf(),
        ensures
            texts(r@) == self@.ready_tasks(states@),
    {
        let ghost nodes = self@.nodes;
        let ghost ready = |id: Text| self@.is_ready(states@, id);
        let mut r: Vec<String> = Vec::new();
        let mut i: usize = 0;
        proof {
            reveal(Seq::filter);
            assert(texts(r@) =~= nodes.take(0).filter(ready));
        }
        while i < self.nodes.len()
            invariant
                self.wf(),
                i <= self.nodes.len(),
                nodes == self@.nodes,
                nodes.len() == self.nodes.len(),
                ready == (|id: Text| self@.is_ready(states@, id)),
                texts(r@) == nodes.take(i as int).filter(ready),
            decreases self.nodes.len() - i,
        {
            let ghost before = texts(r@);
            proof {
                lemma_filter_step(nodes, i as int, ready);
            }
            if self.is_ready(states, i) {
                r.push(self.nodes[i].clone());
                assert(texts(r@) =~= before.push(nodes[i as int]));
            }
            i = i + 1;
        }
        assert(nodes.take(i as int) =~= nodes);
        r
    }
}

/// Whether a task is done.
fn has_done(states: &TaskStates, id: &String) -> (r: bool)
    ensures
        r == is_done(states@, id@),
{
    match states.get_status(id.as_str()) {
        Some(status) => status.is_done(),
        None => false,
    }
}

} // verus!
