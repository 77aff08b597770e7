//! Leaving out the tasks whose dependencies have failed or were left out.

use crate::dag::Dag;
use crate::state::{TaskStates, TaskStatesView, TaskStatus, TaskStatusView};
use crate::task::{find_task, task_ids, task_views, Task, TaskView};
use crate::text::{first_index, lemma_first_index, texts, Text};
use vstd::prelude::*;

verus! {

/// The dependencies of the task of an id; none where there is no such task.
pub open spec fn dependencies_of(tasks: Seq<TaskView>, id: Text) -> Seq<Text> {
    match first_index(task_ids(tasks), id) {
        Some(i) => tasks[i].dependencies,
        None => Seq::empty(),
    }
}

/// Whether a task has failed or was left out.
pub open spec fn blocks(states: TaskStatesView, id: Text) -> bool {
    states.status.contains_key(id) && states.status[id].blocks_dependents()
}

/// Whether a task is to be left out, by a chain of at most `n` dependencies: it is
/// pending, and one of its dependencies has failed, was left out, or is to be left
/// out itself.
pub open spec fn left_out_within(
    nodes: Seq<Text>,
    states: TaskStatesView,
    tasks: Seq<TaskView>,
    id: Text,
    n: nat,
) -> bool
    decreases n,
{
    &&& n > 0
    &&& nodes.contains(id)
    &&& states.is_pending(id)
    &&& exists|dependency: Text| #[trigger]
        dependencies_of(tasks, id).contains(dependency) && (blocks(states, dependency)
            || left_out_within(nodes, states, tasks, dependency, (n - 1) as nat))
}

/// Whether a task is to be left out, by a chain of dependencies of any length.
pub open spec fn left_out(
    nodes: Seq<Text>,
    states: TaskStatesView,
    tasks: Seq<TaskView>,
    id: Text,
) -> bool {
    exists|n: nat| left_out_within(nodes, states, tasks, id, n)
}

/// The statuses after all tasks that are to be left out have been.
pub open spec fn with_skips(
    nodes: Seq<Text>,
    states: TaskStatesView,
    tasks: Seq<TaskView>,
) -> TaskStatesView {
    TaskStatesView {
        ids: states.ids,
        status: Map::new(
            |id: Text| states.status.contains_key(id),
            |id: Text|
                if left_out(nodes, states, tasks, id) {
                    TaskStatusView::SkippedDueToDependencyFailure
                } else {
                    states.status[id]
                },
        ),
    }
}

/// Whether some dependency of a task has failed or was left out.
pub open spec fn has_blocked_dependency(
    states: TaskStatesView,
    tasks: Seq<TaskView>,
    id: Text,
) -> bool {
    exists|dependency: Text| #[trigger]
        dependencies_of(tasks, id).contains(dependency) && blocks(states, dependency)
}

/// When tasks have been left out, no pending task has a dependency that has failed or
/// was left out; only pending tasks were touched, and each that was left out has a
/// dependency that has failed or was left out.
pub proof fn law_skips(
    nodes: Seq<Text>,
    states: TaskStatesView,
    tasks: Seq<TaskView>,
    id: Text,
)
    ensures
        ({
            let skipped = with_skips(nodes, states, tasks);
            &&& nodes.contains(id) && skipped.is_pending(id) ==> forall|dependency: Text| #[trigger]
                dependencies_of(tasks, id).contains(dependency) ==> !blocks(skipped, dependency)
            &&& skipped.get(id) != states.get(id) ==> {
                &&& states.is_pending(id)
                &&& skipped.get(id) == Some(TaskStatusView::SkippedDueToDependencyFailure)
                &&& exists|dependency: Text| #[trigger]
                    dependencies_of(tasks, id).contains(dependency) && blocks(skipped, dependency)
            }
        }),
{
    let skipped = with_skips(nodes, states, tasks);
    assert forall|other: Text| #[trigger]
        left_out(nodes, states, tasks, other) implies states.is_pending(other) && blocks(
        skipped,
        other,
    ) by {
        let n = choose|n: nat| left_out_within(nodes, states, tasks, other, n);
    }
    assert forall|other: Text| blocks(states, other) implies #[trigger] blocks(skipped, other) by {}
    if nodes.contains(id) && skipped.is_pending(id) {
        assert(!left_out(nodes, states, tasks, id));
        assert forall|dependency: Text| #[trigger]
            dependencies_of(tasks, id).contains(dependency) implies !blocks(skipped, dependency) by {
            if blocks(skipped, dependency) {
                if left_out(nodes, states, tasks, dependency) {
                    let n = choose|n: nat| left_out_within(nodes, states, tasks, dependency, n);
                    assert(left_out_within(nodes, states, tasks, id, n + 1));
                } else {
                    assert(left_out_within(nodes, states, tasks, id, 1));
                }
            }
        }
    }
    if skipped.get(id) != states.get(id) {
        assert(left_out(nodes, states, tasks, id));
        let n = choose|n: nat| left_out_within(nodes, states, tasks, id, n);
        let dependency = choose|dependency: Text| #[trigger]
            dependencies_of(tasks, id).contains(dependency) && (blocks(states, dependency)
                || left_out_within(nodes, states, tasks, dependency, (n - 1) as nat));
        if left_out_within(nodes, states, tasks, dependency, (n - 1) as nat) {
            assert(left_out(nodes, states, tasks, dependency));
        }
        assert(blocks(skipped, dependency));
    }
}

/// The same over the tasks themselves, where no id occurs twice: no task that is still
/// pending depends on one that has failed or was left out; only pending tasks are left
/// out, and each that was depends on one that has failed or was left out.
pub proof fn law_skips_by_task(
    nodes: Seq<Text>,
    states: TaskStatesView,
    tasks: Seq<TaskView>,
    id: Text,
)
    requires
        task_ids(tasks).no_duplicates(),
    ensures
        ({
            let skipped = with_skips(nodes, states, tasks);
            &&& forall|i: int, dependency: Text|
                0 <= i < tasks.len() && nodes.contains(tasks[i].id) && skipped.get(tasks[i].id)
                    == Some(TaskStatusView::Pending)
                    && #[trigger] tasks[i].dependencies.contains(dependency) ==> match skipped.get(
                    dependency,
                ) {
                    Some(TaskStatusView::Failed { error }) => false,
                    Some(TaskStatusView::Skipped) => false,
                    Some(TaskStatusView::SkippedDueToDependencyFailure) => false,
                    _ => true,
                }
            &&& skipped.get(id) != states.get(id) ==> {
                &&& states.get(id) == Some(TaskStatusView::Pending)
                &&& skipped.get(id) == Some(TaskStatusView::SkippedDueToDependencyFailure)
                &&& exists|i: int, dependency: Text|
                    0 <= i < tasks.len() && tasks[i].id == id
                        && #[trigger] tasks[i].dependencies.contains(dependency)
                        && match skipped.get(dependency) {
                        Some(TaskStatusView::Failed { error }) => true,
                        Some(TaskStatusView::Skipped) => true,
                        Some(TaskStatusView::SkippedDueToDependencyFailure) => true,
                        _ => false,
                    }
            }
        }),
{
    let skipped = with_skips(nodes, states, tasks);
    let ids = task_ids(tasks);
    assert forall|i: int, dependency: Text|
        0 <= i < tasks.len() && nodes.contains(tasks[i].id) && skipped.get(tasks[i].id) == Some(
            TaskStatusView::Pending,
        ) && #[trigger] tasks[i].dependencies.contains(dependency) implies !blocks(
        skipped,
        dependency,
    ) by {
        law_skips(nodes, states, tasks, tasks[i].id);
        lemma_first_index(ids, tasks[i].id);
        assert(ids[i] == tasks[i].id);
        assert(ids.contains(tasks[i].id));
        let k = first_index(ids, tasks[i].id)->0;
        assert(ids[k] == ids[i]);
        assert(dependencies_of(tasks, tasks[i].id).contains(dependency));
    }
    if skipped.get(id) != states.get(id) {
        law_skips(nodes, states, tasks, id);
        let dependency = choose|dependency: Text| #[trigger]
            dependencies_of(tasks, id).contains(dependency) && blocks(skipped, dependency);
        lemma_first_index(ids, id);
        let k = first_index(ids, id)->0;
        assert(tasks[k].id == id);
        assert(tasks[k].dependencies.contains(dependency));
    }
}

/// How many of the nodes are pending.
spec fn pending_count(nodes: Seq<Text>, states: TaskStatesView) -> nat
    decreases nodes.len(),
{
    if nodes.len() == 0 {
        0
    } else {
        pending_count(nodes.drop_last(), states) + (if states.is_pending(nodes.last()) {
            1nat
        } else {
            0nat
        })
    }
}

/// The count falls when a pending node becomes something else.
proof fn lemma_pending_count(nodes: Seq<Text>, before: TaskStatesView, after: TaskStatesView)
    requires
        forall|id: Text| #[trigger] after.is_pending(id) ==> before.is_pending(id),
    ensures
        pending_count(nodes, after) <= pending_count(nodes, before),
        forall|i: int|
            0 <= i < nodes.len() && before.is_pending(#[trigger] nodes[i]) && !after.is_pending(
                nodes[i],
            ) ==> pending_count(nodes, after) < pending_count(nodes, before),
    decreases nodes.len(),
{
    if nodes.len() > 0 {
        let rest = nodes.drop_last();
        lemma_pending_count(rest, before, after);
        assert(after.is_pending(nodes.last()) ==> before.is_pending(nodes.last()));
        assert forall|i: int|
            0 <= i < nodes.len() && before.is_pending(#[trigger] nodes[i]) && !after.is_pending(
                nodes[i],
            ) implies pending_count(nodes, after) < pending_count(nodes, before) by {
            if i < rest.len() {
                assert(rest[i] == nodes[i]);
            }
        }
    }
}

/// Whether statuses have come about by leaving out some of the tasks that are to be
/// left out.
spec fn partly_skipped(
    nodes: Seq<Text>,
    states: TaskStatesView,
    tasks: Seq<TaskView>,
    now: TaskStatesView,
) -> bool {
    &&& now.ids == states.ids
    &&& forall|id: Text| #[trigger]
        now.status.contains_key(id) <==> states.status.contains_key(id)
    &&& forall|id: Text| #[trigger]
        now.status.contains_key(id) ==> (now.status[id] == states.status[id] || (
        now.status[id] is SkippedDueToDependencyFailure && left_out(nodes, states, tasks, id)))
}

/// A pending task with a blocked dependency is to be left out.
proof fn lemma_skip_one(
    nodes: Seq<Text>,
    states: TaskStatesView,
    tasks: Seq<TaskView>,
    now: TaskStatesView,
    id: Text,
)
    requires
        partly_skipped(nodes, states, tasks, now),
        nodes.contains(id),
        now.is_pending(id),
        has_blocked_dependency(now, tasks, id),
    ensures
        left_out(nodes, states, tasks, id),
{
    let dependency = choose|dependency: Text| #[trigger]
        dependencies_of(tasks, id).contains(dependency) && blocks(now, dependency);
    assert(now.status.contains_key(id));
    assert(now.status.contains_key(dependency));
    if blocks(states, dependency) {
        assert(left_out_within(nodes, states, tasks, id, 1));
    } else {
        let n = choose|n: nat| left_out_within(nodes, states, tasks, dependency, n);
        assert(left_out_within(nodes, states, tasks, id, n + 1));
    }
}

/// Where no pending task has a blocked dependency, all that is to be left out has been.
proof fn lemma_all_skipped(
    nodes: Seq<Text>,
    states: TaskStatesView,
    tasks: Seq<TaskView>,
    now: TaskStatesView,
    id: Text,
    n: nat,
)
    requires
        partly_skipped(nodes, states, tasks, now),
        forall|id: Text|
            nodes.contains(id) && #[trigger] now.is_pending(id) ==> !has_blocked_dependency(
                now,
                tasks,
                id,
            ),
        left_out_within(nodes, states, tasks, id, n),
    ensures
        now.status.contains_key(id),
        now.status[id] is SkippedDueToDependencyFailure,
    decreases n,
{
    let dependency = choose|dependency: Text| #[trigger]
        dependencies_of(tasks, id).contains(dependency) && (blocks(states, dependency)
            || left_out_within(nodes, states, tasks, dependency, (n - 1) as nat));
    assert(now.status.contains_key(id));
    if left_out_within(nodes, states, tasks, dependency, (n - 1) as nat) {
        lemma_all_skipped(nodes, states, tasks, now, dependency, (n - 1) as nat);
    } else {
        assert(now.status.contains_key(dependency));
    }
    assert(blocks(now, dependency));
    if now.is_pending(id) {
        assert(has_blocked_dependency(now, tasks, id));
    }
}

/// Whether some dependency of a task has failed or was left out.
fn is_dependency_blocked(states: &TaskStates, tasks: &Vec<Task>, id: &String) -> (r: bool)
    ensures
        r == has_blocked_dependency(states@, task_views(tasks@), id@),
{
    match find_task(tasks, id) {
        None => false,
        Some(i) => {
            let dependencies = &tasks[i].dependencies;
            let ghost all = dependencies_of(task_views(tasks@), id@);
            let mut k: usize = 0;
            while k < dependencies.len()
                invariant
                    k <= dependencies.len(),
                    all == dependencies_of(task_views(tasks@), id@),
                    all == texts(dependencies@),
                    forall|j: int| 0 <= j < k ==> !blocks(states@, #[trigger] all[j]),
                decreases dependencies.len() - k,
            {
                if let Some(status) = states.get_status(dependencies[k].as_str()) {
                    if status.is_blocking_dependents() {
                        assert(all.contains(all[k as int]));
                        return true;
                    }
                }
                k = k + 1;
            }
            false
        },
    }
}

/// Leaves out every pending task with a dependency that has failed or was left out,
/// then those that depend on them, and so on. Tells whether any task was left out.
pub fn propagate_skips(dag: &Dag, states: &mut TaskStates, tasks: &Vec<Task>) -> (any_skipped: bool)
    ensures
        final(states)@ == with_skips(dag@.nodes, old(states)@, task_views(tasks@)),
        any_skipped == exists|id: Text|
            left_out(dag@.nodes, old(states)@, task_views(tasks@), id),
{
    let ghost nodes = dag@.nodes;
    let ghost before = states@;
    let ghost all = task_views(tasks@);
    let ids = dag.task_ids();
    let mut any_skipped: bool = false;
    let mut changed: bool = true;
    while changed
        invariant
            nodes == texts(ids@),
            all == task_views(tasks@),
            partly_skipped(nodes, before, all, states@),
            any_skipped ==> exists|id: Text| left_out(nodes, before, all, id),
            !any_skipped ==> states@ == before,
            !changed ==> forall|id: Text|
                nodes.contains(id) && #[trigger] states@.is_pending(id) ==> !has_blocked_dependency(
                    states@,
                    all,
                    id,
                ),
        decreases pending_count(nodes, states@), (if changed { 1int } else { 0int }),
    {
        changed = false;
        let ghost entry = states@;
        let mut i: usize = 0;
        while i < ids.len()
            invariant
                i <= ids.len(),
                nodes == texts(ids@),
                all == task_views(tasks@),
                partly_skipped(nodes, before, all, states@),
                any_skipped ==> exists|id: Text| left_out(nodes, before, all, id),
                !any_skipped ==> states@ == before,
                changed ==> pending_count(nodes, states@) < pending_count(nodes, entry),
                !changed ==> states@ == entry,
                !changed ==> forall|j: int|
                    0 <= j < i && states@.is_pending(#[trigger] nodes[j])
                        ==> !has_blocked_dependency(states@, all, nodes[j]),
            decreases ids.len() - i,
        {
            let pending = matches!(states.get_status(ids[i].as_str()), Some(TaskStatus::Pending));
            if pending && is_dependency_blocked(states, tasks, &ids[i]) {
                let ghost previous = states@;
                proof {
                    assert(nodes[i as int] == ids@[i as int]@);
                    assert(nodes.contains(nodes[i as int]));
                    lemma_skip_one(nodes, before, all, previous, nodes[i as int]);
                }
                states.mark_skipped_due_to_dep_failure(&ids[i]);
                proof {
                    lemma_pending_count(nodes, previous, states@);
                    assert(previous.is_pending(nodes[i as int]));
                    assert(!states@.is_pending(nodes[i as int]));
                }
                changed = true;
                any_skipped = true;
            }
            i = i + 1;
        }
    }
    proof {
        assert forall|id: Text| left_out(nodes, before, all, id) implies states@.status.contains_key(
            id,
        ) && states@.status[id] is SkippedDueToDependencyFailure by {
            let n = choose|n: nat| left_out_within(nodes, before, all, id, n);
            lemma_all_skipped(nodes, before, all, states@, id, n);
        }
        assert(states@.status =~= with_skips(nodes, before, all).status);
        if exists|id: Text| left_out(nodes, before, all, id) {
            let id = choose|id: Text| left_out(nodes, before, all, id);
            let n = choose|n: nat| left_out_within(nodes, before, all, id, n);
            assert(before.is_pending(id));
        }
    }
    any_skipped
}

} // verus!
