//! Workflows: tasks with dependencies, and how they are to be run.

use crate::dag::{acyclic, ranked, Dag, DagView};
use crate::error::{WorkflowError, WorkflowErrorView};
use crate::lists::lemma_push_contains;
use crate::path::{optional_text, resolved, DirPath, DirPathView, Location, LocationView};
use crate::process::Submitter;
use crate::remains::{keep_standing, standing};
use crate::state::TaskSuccessors;
use crate::task::{find_task, task_ids, task_views, Task, TaskView};
use crate::text::{lemma_first_index, texts, Text};
use vstd::prelude::*;
use vstd::string::*;

verus! {

/// How many tasks run at once where the machine does not say how many it can run.
pub const DEFAULT_PARALLELISM: usize = 4;

/// A set of tasks with dependencies.
pub struct Workflow {
    pub name: String,
    tasks: Vec<Task>,
    max_parallel: usize,
    log_dir: Option<DirPath>,
    root_dir: Option<String>,
    queued_submitter: Option<Submitter>,
    computed_successors: Option<TaskSuccessors>,
}

/// The content of a [`Workflow`].
#[verifier::ext_equal]
pub struct WorkflowView {
    pub name: Text,
    /// The tasks that have not been taken up, in the order in which they were added.
    pub tasks: Seq<TaskView>,
    pub max_parallel: usize,
    pub log_dir: Option<DirPathView>,
    pub root_dir: Option<Text>,
    pub queued_submitter: Option<Submitter>,
    pub successors: Option<Map<Text, Seq<Text>>>,
}

impl View for Workflow {
    type V = WorkflowView;

    closed spec fn view(&self) -> WorkflowView {
        WorkflowView {
            name: self.name@,
            tasks: task_views(self.tasks@),
            max_parallel: self.max_parallel,
            log_dir: match self.log_dir {
                Some(dir) => Some(dir@),
                None => None,
            },
            root_dir: optional_text(self.root_dir),
            queued_submitter: self.queued_submitter,
            successors: match self.computed_successors {
                Some(successors) => Some(successors@),
                None => None,
            },
        }
    }
}

impl WorkflowView {
    /// At least one task may run at a time, and no id occurs twice.
    pub open spec fn wf(self) -> bool {
        self.max_parallel >= 1 && task_ids(self.tasks).no_duplicates()
    }

    /// Where the directory for log files lies.
    pub open spec fn resolved_log_dir(self) -> Option<LocationView> {
        match self.log_dir {
            Some(dir) => Some(resolved(dir, self.root_dir)),
            None => None,
        }
    }
}

/// The edges that tasks declare: from each dependency to the task that has it, in
/// the order of the tasks and of their dependencies.
pub open spec fn declared_edges(tasks: Seq<TaskView>) -> Seq<(Text, Text)>
    decreases tasks.len(),
{
    if tasks.len() == 0 {
        Seq::empty()
    } else {
        declared_edges(tasks.drop_last()) + task_edges(tasks.last(), tasks.last().dependencies)
    }
}

/// The edges from some ids to a task.
pub open spec fn task_edges(task: TaskView, dependencies: Seq<Text>) -> Seq<(Text, Text)> {
    dependencies.map_values(|dependency: Text| (dependency, task.id))
}

/// What adding nodes to the empty graph gives, one after the other.
pub open spec fn add_nodes(ids: Seq<Text>) -> Result<DagView, WorkflowErrorView>
    decreases ids.len(),
{
    if ids.len() == 0 {
        Ok(DagView::empty())
    } else {
        match add_nodes(ids.drop_last()) {
            Ok(dag) => dag.node_outcome(ids.last()),
            Err(e) => Err(e),
        }
    }
}

/// What adding edges to a graph gives, one after the other.
pub open spec fn add_edges(dag: DagView, edges: Seq<(Text, Text)>) -> Result<
    DagView,
    WorkflowErrorView,
>
    decreases edges.len(),
{
    if edges.len() == 0 {
        Ok(dag)
    } else {
        match add_edges(dag, edges.drop_last()) {
            Ok(dag) => dag.edge_outcome(edges.last().0, edges.last().1),
            Err(e) => Err(e),
        }
    }
}

/// The dependency graph of tasks, or what is wrong with the first id or dependency
/// that cannot be taken into it.
pub open spec fn build_outcome(tasks: Seq<TaskView>) -> Result<DagView, WorkflowErrorView> {
    match add_nodes(task_ids(tasks)) {
        Ok(dag) => add_edges(dag, declared_edges(tasks)),
        Err(e) => Err(e),
    }
}

impl Workflow {
    /// Creates a workflow without tasks. `parallelism` is how many threads the
    /// machine runs at once, where it says so.
    pub fn new(name: &str, parallelism: Option<usize>) -> (r: Workflow)
        requires
            parallelism matches Some(n) ==> n >= 1,
        ensures
            r@ == (WorkflowView {
                name: name@,
                tasks: Seq::empty(),
                max_parallel: match parallelism {
                    Some(n) => n,
                    None => 4,
                },
                log_dir: None,
                root_dir: None,
                queued_submitter: None,
                successors: None,
            }),
            r@.wf(),
    {
        let max_parallel = match parallelism {
            Some(n) => n,
            None => DEFAULT_PARALLELISM,
        };
        let r = Workflow {
            name: name.to_owned(),
            tasks: Vec::new(),
            max_parallel,
            log_dir: None,
            root_dir: None,
            queued_submitter: None,
            computed_successors: None,
        };
        assert(r@.tasks =~= Seq::empty());
        r
    }

    /// Sets how many tasks may be in flight at once.
    pub fn with_max_parallel(self, n: usize) -> (r: Result<Workflow, WorkflowError>)
        ensures
            match r {
                Ok(workflow) => n != 0 && workflow@ == (WorkflowView { max_parallel: n, ..self@ }),
                Err(e) => n == 0 && e@ == WorkflowErrorView::InvalidConfig(
                    "max_parallel must be at least 1"@,
                ),
            },
    {
        if n == 0 {
            return Err(
                WorkflowError::InvalidConfig(String::from_str("max_parallel must be at least 1")),
            );
        }
        Ok(Workflow { max_parallel: n, ..self })
    }

    /// Sets the directory for log files.
    pub fn with_log_dir(self, path: DirPath) -> (r: Workflow)
        ensures
            r@ == (WorkflowView { log_dir: Some(path@), ..self@ }),
    {
        Workflow { log_dir: Some(path), ..self }
    }

    /// Sets the queue that takes the tasks of the mode `Queued`.
    pub fn with_queued_submitter(self, qs: Submitter) -> (r: Workflow)
        ensures
            r@ == (WorkflowView { queued_submitter: Some(qs), ..self@ }),
    {
        Workflow { queued_submitter: Some(qs), ..self }
    }

    /// Sets the directory from which relative directories are taken.
    pub fn with_root_dir(self, path: &str) -> (r: Workflow)
        ensures
            r@ == (WorkflowView { root_dir: Some(path@), ..self@ }),
    {
        Workflow { root_dir: Some(path.to_owned()), ..self }
    }

    /// The successors of every task, once a run has built the dependency graph.
    pub fn successor_map(&self) -> (r: Option<&TaskSuccessors>)
        ensures
            match r {
                Some(successors) => self@.successors == Some(successors@),
                None => self@.successors is None,
            },
    {
        self.computed_successors.as_ref()
    }

    /// The name of the workflow.
    pub fn name(&self) -> (r: &String)
        ensures
            r@ == self@.name,
    {
        &self.name
    }

    /// How many tasks may be in flight at once.
    pub fn max_parallel(&self) -> (r: usize)
        ensures
            r == self@.max_parallel,
    {
        self.max_parallel
    }

    /// The queue that takes the tasks of the mode `Queued`.
    pub fn queued_submitter(&self) -> (r: &Option<Submitter>)
        ensures
            *r == self@.queued_submitter,
    {
        &self.queued_submitter
    }

    /// How many tasks have not been taken up.
    pub fn task_count(&self) -> (r: usize)
        ensures
            r == self@.tasks.len(),
    {
        self.tasks.len()
    }

    /// The tasks that have not been taken up.
    pub fn tasks(&self) -> (r: &Vec<Task>)
        ensures
            task_views(r@) == self@.tasks,
    {
        &self.tasks
    }

    /// Takes a task out of the workflow.
    pub(crate) fn take_task(&mut self, i: usize) -> (r: Task)
        requires
            i < old(self)@.tasks.len(),
        ensures
            r@ == old(self)@.tasks[i as int],
            final(self)@ == (WorkflowView {
                tasks: old(self)@.tasks.remove(i as int),
                ..old(self)@
            }),
    {
        let r = self.tasks.remove(i);
        assert(self@.tasks =~= old(self)@.tasks.remove(i as int));
        r
    }

    /// Takes the tasks out of the workflow that depend, by any chain, on one that is not
    /// there.
    pub(crate) fn drop_orphans(&mut self)
        ensures
            final(self)@ == (WorkflowView { tasks: standing(old(self)@.tasks), ..old(self)@ }),
    {
        keep_standing(&mut self.tasks);
    }

    /// Keeps the successors of every task.
    pub(crate) fn set_successors(&mut self, successors: TaskSuccessors)
        ensures
            final(self)@ == (WorkflowView { successors: Some(successors@), ..old(self)@ }),
    {
        self.computed_successors = Some(successors);
    }

    /// Decides where a directory lies, given the root directory of the workflow.
    pub fn resolve(&self, path: &DirPath) -> (r: Location)
        ensures
            r@ == resolved(path@, self@.root_dir),
            r@.path == path@.text,
            r@.root == (if path@.absolute {
                None
            } else {
                self@.root_dir
            }),
    {
        path.resolve(&self.root_dir)
    }

    /// Decides where the directory for log files lies, if there is one.
    pub fn resolved_log_dir(&self) -> (r: Option<Location>)
        ensures
            match r {
                Some(dir) => self@.resolved_log_dir() == Some(dir@) && self@.log_dir is Some
                    && dir@.path == self@.log_dir->0.text && dir@.root == (
                if self@.log_dir->0.absolute {
                    None
                } else {
                    self@.root_dir
                }),
                None => self@.resolved_log_dir() is None && self@.log_dir is None,
            },
    {
        match &self.log_dir {
            Some(dir) => Some(dir.resolve(&self.root_dir)),
            None => None,
        }
    }

    /// Adds a task, unless there is one of its id.
    pub fn add_task(&mut self, task: Task) -> (r: Result<(), WorkflowError>)
        ensures
            match r {
                Ok(_) => !task_ids(old(self)@.tasks).contains(task@.id) && final(self)@ == (
                WorkflowView { tasks: old(self)@.tasks.push(task@), ..old(self)@ }),
                Err(e) => task_ids(old(self)@.tasks).contains(task@.id) && final(self)@ == old(
                    self,
                )@ && e@ == WorkflowErrorView::DuplicateTaskId(task@.id),
            },
            old(self)@.wf() ==> final(self)@.wf(),
    {
        let ghost before = self@.tasks;
        let found = find_task(&self.tasks, &task.id);
        proof {
            lemma_first_index(task_ids(before), task@.id);
        }
        if found.is_some() {
            return Err(WorkflowError::DuplicateTaskId(task.id));
        }
        self.tasks.push(task);
        proof {
            assert(self@.tasks =~= before.push(task@));
            assert(task_ids(self@.tasks) =~= task_ids(before).push(task@.id));
        }
        Ok(())
    }

    /// Lists the tasks in an order in which they can be run.
    pub fn dry_run(&self) -> (r: Result<Vec<String>, WorkflowError>)
        ensures
            match r {
                Ok(order) => match build_outcome(self@.tasks) {
                    Ok(dag) => dag.is_topological_order(texts(order@)),
                    Err(_) => false,
                },
                Err(e) => build_outcome(self@.tasks) == Err::<DagView, WorkflowErrorView>(e@),
            },
            self@.wf() && r is Ok ==> is_run_order(self@.tasks, texts(r->Ok_0@)),
    {
        match self.build_dag() {
            Ok(dag) => {
                let order = dag.topological_order();
                proof {
                    if self@.wf() {
                        law_build_outcome(self@.tasks);
                        lemma_run_order(self@.tasks, texts(order@));
                    }
                }
                Ok(order)
            },
            Err(e) => Err(e),
        }
    }

    /// Builds the dependency graph.
    pub fn build_dag(&self) -> (r: Result<Dag, WorkflowError>)
        ensures
            match r {
                Ok(dag) => dag.wf() && build_outcome(self@.tasks) == Ok::<
                    DagView,
                    WorkflowErrorView,
                >(dag@),
                Err(e) => build_outcome(self@.tasks) == Err::<DagView, WorkflowErrorView>(e@),
            },
    {
        let ghost tasks = self@.tasks;
        let ghost ids = task_ids(tasks);
        let mut dag = Dag::new();
        let mut i: usize = 0;
        assert(ids.take(0) =~= Seq::empty());
        while i < self.tasks.len()
            invariant
                i <= self.tasks.len(),
                tasks == self@.tasks,
                tasks.len() == self.tasks.len(),
                ids == task_ids(tasks),
                dag.wf(),
                add_nodes(ids.take(i as int)) == Ok::<DagView, WorkflowErrorView>(dag@),
            decreases self.tasks.len() - i,
        {
            assert(ids.take(i + 1).drop_last() =~= ids.take(i as int));
            if let Err(e) = dag.add_node(&self.tasks[i].id) {
                proof {
                    lemma_add_nodes_error(ids, i + 1);
                }
                return Err(e);
            }
            i = i + 1;
        }
        assert(ids.take(i as int) =~= ids);
        let ghost base = dag@;
        i = 0;
        assert(tasks.take(0) =~= Seq::empty());
        while i < self.tasks.len()
            invariant
                i <= self.tasks.len(),
                tasks == self@.tasks,
                tasks.len() == self.tasks.len(),
                add_nodes(task_ids(tasks)) == Ok::<DagView, WorkflowErrorView>(base),
                dag.wf(),
                add_edges(base, declared_edges(tasks.take(i as int))) == Ok::<
                    DagView,
                    WorkflowErrorView,
                >(dag@),
            decreases self.tasks.len() - i,
        {
            let task = &self.tasks[i];
            let ghost done = declared_edges(tasks.take(i as int));
            let ghost dependencies = task@.dependencies;
            let mut j: usize = 0;
            proof {
                assert(tasks.take(i + 1).drop_last() =~= tasks.take(i as int));
                assert(done + task_edges(task@, dependencies.take(0)) =~= done);
            }
            while j < task.dependencies.len()
                invariant
                    j <= task.dependencies.len(),
                    i < self.tasks.len(),
                    tasks == self@.tasks,
                    tasks.len() == self.tasks.len(),
                    task@ == tasks[i as int],
                    dependencies == task@.dependencies,
                    dependencies.len() == task.dependencies.len(),
                    done == declared_edges(tasks.take(i as int)),
                    add_nodes(task_ids(tasks)) == Ok::<DagView, WorkflowErrorView>(base),
                    declared_edges(tasks.take(i + 1)) == done + task_edges(task@, dependencies),
                    dag.wf(),
                    add_edges(base, done + task_edges(task@, dependencies.take(j as int))) == Ok::<
                        DagView,
                        WorkflowErrorView,
                    >(dag@),
                decreases task.dependencies.len() - j,
            {
                let ghost next = done + task_edges(task@, dependencies.take(j + 1));
                proof {
                    assert(next.drop_last() =~= done + task_edges(
                        task@,
                        dependencies.take(j as int),
                    ));
                    assert(next.last() == (dependencies[j as int], task@.id));
                }
                if let Err(e) = dag.add_edge(&task.dependencies[j], &task.id) {
                    proof {
                        let all = declared_edges(tasks);
                        lemma_declared_prefix(tasks, i + 1);
                        let n = next.len() as int;
                        assert(next =~= declared_edges(tasks.take(i + 1)).take(n));
                        assert(next =~= all.take(n));
                        lemma_add_edges_error(base, all, n);
                    }
                    return Err(e);
                }
                j = j + 1;
            }
            assert(dependencies.take(j as int) =~= dependencies);
            i = i + 1;
        }
        assert(tasks.take(i as int) =~= tasks);
        Ok(dag)
    }
}

/// An error met among the first ids is the outcome for all of them.
proof fn lemma_add_nodes_error(ids: Seq<Text>, n: int)
    requires
        0 <= n <= ids.len(),
        add_nodes(ids.take(n)) is Err,
    ensures
        add_nodes(ids) == add_nodes(ids.take(n)),
    decreases ids.len() - n,
{
    if n < ids.len() {
        assert(ids.take(n + 1).drop_last() =~= ids.take(n));
        lemma_add_nodes_error(ids, n + 1);
    } else {
        assert(ids.take(n) =~= ids);
    }
}

/// An error met among the first edges is the outcome for all of them.
proof fn lemma_add_edges_error(dag: DagView, edges: Seq<(Text, Text)>, n: int)
    requires
        0 <= n <= edges.len(),
        add_edges(dag, edges.take(n)) is Err,
    ensures
        add_edges(dag, edges) == add_edges(dag, edges.take(n)),
    decreases edges.len() - n,
{
    if n < edges.len() {
        assert(edges.take(n + 1).drop_last() =~= edges.take(n));
        lemma_add_edges_error(dag, edges, n + 1);
    } else {
        assert(edges.take(n) =~= edges);
    }
}

/// The edges of the first tasks come first.
proof fn lemma_declared_prefix(tasks: Seq<TaskView>, n: int)
    requires
        0 <= n <= tasks.len(),
    ensures
        declared_edges(tasks.take(n)).len() <= declared_edges(tasks).len(),
        declared_edges(tasks).take(declared_edges(tasks.take(n)).len() as int) == declared_edges(
            tasks.take(n),
        ),
    decreases tasks.len() - n,
{
    let head = declared_edges(tasks.take(n));
    if n < tasks.len() {
        assert(tasks.take(n + 1).drop_last() =~= tasks.take(n));
        lemma_declared_prefix(tasks, n + 1);
        let next = declared_edges(tasks.take(n + 1));
        assert(next.take(head.len() as int) =~= head);
        assert(declared_edges(tasks).take(head.len() as int) =~= next.take(head.len() as int));
    } else {
        assert(tasks.take(n) =~= tasks);
        assert(head.take(head.len() as int) =~= head);
    }
}

/// Different ids all find a place in the graph.
proof fn lemma_add_nodes(ids: Seq<Text>)
    requires
        ids.no_duplicates(),
    ensures
        add_nodes(ids) == Ok::<DagView, WorkflowErrorView>(
            DagView { nodes: ids, edges: Seq::empty() },
        ),
    decreases ids.len(),
{
    if ids.len() > 0 {
        let rest = ids.drop_last();
        lemma_add_nodes(rest);
        if rest.contains(ids.last()) {
            let j = choose|j: int| 0 <= j < rest.len() && rest[j] == ids.last();
            assert(ids[j] == ids[ids.len() - 1]);
        }
        assert(rest.push(ids.last()) =~= ids);
    } else {
        assert(ids =~= Seq::empty());
    }
}

/// Fewer edges form no cycle where more form none.
proof fn lemma_acyclic_prefix(edges: Seq<(Text, Text)>)
    requires
        edges.len() > 0,
        acyclic(edges),
    ensures
        acyclic(edges.drop_last()),
{
    let rank = choose|rank: spec_fn(Text) -> nat| #[trigger] ranked(edges, rank);
    assert forall|k: int| 0 <= k < edges.drop_last().len() implies rank(
        (#[trigger] edges.drop_last()[k]).0,
    ) < rank(edges.drop_last()[k].1) by {
        assert(edges.drop_last()[k] == edges[k]);
    }
    assert(ranked(edges.drop_last(), rank));
}

/// What comes of adding edges to nodes, one after the other.
proof fn lemma_add_edges(nodes: Seq<Text>, edges: Seq<(Text, Text)>)
    ensures
        ({
            let known = forall|k: int|
                0 <= k < edges.len() ==> nodes.contains((#[trigger] edges[k]).0) && nodes.contains(
                    edges[k].1,
                );
            match add_edges(DagView { nodes, edges: Seq::empty() }, edges) {
                Ok(dag) => known && acyclic(edges) && dag == (DagView { nodes, edges }),
                Err(WorkflowErrorView::UnknownDependency { task, dependency }) => edges.contains(
                    (dependency, task),
                ) && (!nodes.contains(dependency) || !nodes.contains(task)),
                Err(WorkflowErrorView::CycleDetected) => !acyclic(edges),
                Err(_) => false,
            }
        }),
    decreases edges.len(),
{
    let empty = DagView { nodes, edges: Seq::empty() };
    if edges.len() == 0 {
        assert(edges =~= Seq::empty());
        let rank = |id: Text| 0nat;
        assert(ranked(edges, rank));
    } else {
        let rest = edges.drop_last();
        let last = edges.last();
        lemma_add_edges(nodes, rest);
        assert(rest.push(last) =~= edges);
        assert(edges[edges.len() - 1] == last);
        match add_edges(empty, rest) {
            Ok(dag) => {
                assert(dag.edges.push((last.0, last.1)) =~= edges);
                assert forall|k: int| 0 <= k < edges.len() && k != edges.len() - 1 implies
                    nodes.contains((#[trigger] edges[k]).0) && nodes.contains(edges[k].1) by {
                    assert(edges[k] == rest[k]);
                }
                assert(edges.contains((last.0, last.1)));
            },
            Err(e) => {
                if let WorkflowErrorView::UnknownDependency { task, dependency } = e {
                    lemma_push_contains(rest, last, (dependency, task));
                }
                if acyclic(edges) {
                    lemma_acyclic_prefix(edges);
                }
            },
        }
    }
}

/// Which edges are declared: those from a dependency of a task to that task.
pub proof fn lemma_declared_edges(tasks: Seq<TaskView>, a: Text, b: Text)
    ensures
        declared_edges(tasks).contains((a, b)) <==> exists|i: int|
            0 <= i < tasks.len() && (#[trigger] tasks[i]).id == b && tasks[i].dependencies.contains(
                a,
            ),
    decreases tasks.len(),
{
    if tasks.len() > 0 {
        let rest = tasks.drop_last();
        let last = tasks.last();
        lemma_declared_edges(rest, a, b);
        let head = declared_edges(rest);
        let tail = task_edges(last, last.dependencies);
        let all = declared_edges(tasks);
        assert(all == head + tail);
        if all.contains((a, b)) {
            let k = choose|k: int| 0 <= k < all.len() && all[k] == (a, b);
            if k < head.len() {
                assert(head[k] == (a, b));
                let i = choose|i: int|
                    0 <= i < rest.len() && (#[trigger] rest[i]).id == b
                        && rest[i].dependencies.contains(a);
                assert(tasks[i] == rest[i]);
            } else {
                assert(tail[k - head.len()] == (a, b));
                assert(last.dependencies[k - head.len()] == a);
                assert(tasks[tasks.len() - 1] == last);
            }
        }
        if exists|i: int|
            0 <= i < tasks.len() && (#[trigger] tasks[i]).id == b && tasks[i].dependencies.contains(
                a,
            ) {
            let i = choose|i: int|
                0 <= i < tasks.len() && (#[trigger] tasks[i]).id == b
                    && tasks[i].dependencies.contains(a);
            if i < rest.len() {
                assert(rest[i] == tasks[i]);
                let k = choose|k: int| 0 <= k < head.len() && head[k] == (a, b);
                assert(all[k] == (a, b));
            } else {
                let j = choose|j: int| 0 <= j < last.dependencies.len() && last.dependencies[j] == a;
                assert(tail[j] == (a, b));
                assert(all[head.len() + j] == (a, b));
            }
        }
    }
}

/// Whether a list holds the id of every task, each once and nothing else, and each task after
/// all that it depends on.
pub open spec fn is_run_order(tasks: Seq<TaskView>, order: Seq<Text>) -> bool {
    &&& order.no_duplicates()
    &&& forall|id: Text| #[trigger] order.contains(id) <==> task_ids(tasks).contains(id)
    &&& forall|i: int, dependency: Text|
        0 <= i < tasks.len() && #[trigger] tasks[i].dependencies.contains(dependency) ==> exists|
            a: int,
            b: int,
        |
            0 <= a < b < order.len() && #[trigger] order[a] == dependency && #[trigger] order[b]
                == tasks[i].id
}

/// A topological order of the graph of tasks is an order in which they can be run.
proof fn lemma_run_order(tasks: Seq<TaskView>, order: Seq<Text>)
    requires
        task_ids(tasks).no_duplicates(),
        build_outcome(tasks) matches Ok(dag) && dag.is_topological_order(order),
    ensures
        is_run_order(tasks, order),
{
    law_build_outcome(tasks);
    let dag = build_outcome(tasks)->Ok_0;
    assert forall|i: int, dependency: Text|
        0 <= i < tasks.len() && #[trigger] tasks[i].dependencies.contains(
            dependency,
        ) implies exists|a: int, b: int|
        0 <= a < b < order.len() && #[trigger] order[a] == dependency && #[trigger] order[b]
            == tasks[i].id by {
        lemma_declared_edges(tasks, dependency, tasks[i].id);
        assert(dag.edges.contains((dependency, tasks[i].id)));
        assert(task_ids(tasks)[i] == tasks[i].id);
        assert(task_ids(tasks).contains(tasks[i].id));
        assert(task_ids(tasks).contains(dependency));
        assert(order.contains(dependency) && order.contains(tasks[i].id));
        let a = choose|a: int| 0 <= a < order.len() && order[a] == dependency;
        let b = choose|b: int| 0 <= b < order.len() && order[b] == tasks[i].id;
        assert(dag.edges.contains((order[a], order[b])));
        assert(order[a] == dependency && order[b] == tasks[i].id);
    }
}

/// Whether every dependency of every task is a task.
pub open spec fn dependencies_known(tasks: Seq<TaskView>) -> bool {
    forall|i: int, dependency: Text|
        0 <= i < tasks.len() && #[trigger] tasks[i].dependencies.contains(dependency) ==> task_ids(
            tasks,
        ).contains(dependency)
}

/// The dependency graph can be built exactly where every dependency is a task and
/// the dependencies form no cycle. It then has the tasks for nodes and their
/// dependencies for edges. An unknown dependency is reported only where a task has
/// it, and a cycle only where there is one.
pub proof fn law_build_outcome(tasks: Seq<TaskView>)
    requires
        task_ids(tasks).no_duplicates(),
    ensures
        build_outcome(tasks) is Ok <==> dependencies_known(tasks) && acyclic(declared_edges(tasks)),
        match build_outcome(tasks) {
            Ok(dag) => dag == (DagView { nodes: task_ids(tasks), edges: declared_edges(tasks) })
                && dag.wf(),
            Err(WorkflowErrorView::UnknownDependency { task, dependency }) => !task_ids(
                tasks,
            ).contains(dependency) && exists|i: int|
                0 <= i < tasks.len() && (#[trigger] tasks[i]).id == task
                    && tasks[i].dependencies.contains(dependency),
            Err(WorkflowErrorView::CycleDetected) => !acyclic(declared_edges(tasks)),
            Err(_) => false,
        },
{
    let ids = task_ids(tasks);
    let edges = declared_edges(tasks);
    lemma_add_nodes(ids);
    lemma_add_edges(ids, edges);
    match build_outcome(tasks) {
        Ok(dag) => {
            assert forall|i: int, dependency: Text|
                0 <= i < tasks.len() && #[trigger] tasks[i].dependencies.contains(
                    dependency,
                ) implies ids.contains(dependency) by {
                lemma_declared_edges(tasks, dependency, tasks[i].id);
                assert(edges.contains((dependency, tasks[i].id)));
                let k = choose|k: int| 0 <= k < edges.len() && edges[k] == (dependency, tasks[i].id);
                assert(ids.contains(edges[k].0));
            }
        },
        Err(WorkflowErrorView::UnknownDependency { task, dependency }) => {
            lemma_declared_edges(tasks, dependency, task);
            let i = choose|i: int|
                0 <= i < tasks.len() && (#[trigger] tasks[i]).id == task
                    && tasks[i].dependencies.contains(dependency);
            assert(ids[i] == task);
            assert(ids.contains(task));
        },
        Err(_) => {},
    }
}

} // verus!
