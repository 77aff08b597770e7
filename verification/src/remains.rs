//! What is left of the tasks of a workflow when a run is over.
//!
//! The tasks that were taken up are used up. A task that depends on one of them could
//! not be taken into a dependency graph any more, and goes with it.

use crate::lists::{
    lemma_filter_all, lemma_filter_members, lemma_filter_step, lemma_mark, unmarked,
};
use crate::task::{task_ids, task_views, Task, TaskView};
use crate::text::{texts, Text};
use crate::workflow::dependencies_known;
use vstd::prelude::*;

verus! {

/// Whether a task depends, by a chain of at most `n` dependencies, on one that is not
/// among some tasks.
pub open spec fn orphaned_within(tasks: Seq<TaskView>, task: TaskView, n: nat) -> bool
    decreases n,
{
    &&& n > 0
    &&& exists|dependency: Text| #[trigger]
        task.dependencies.contains(dependency) && (!task_ids(tasks).contains(dependency)
            || exists|j: int|
            0 <= j < tasks.len() && (#[trigger] tasks[j]).id == dependency && orphaned_within(
                tasks,
                tasks[j],
                (n - 1) as nat,
            ))
}

/// Whether a task depends, by a chain of any length, on one that is not among some tasks.
pub open spec fn orphaned(tasks: Seq<TaskView>, task: TaskView) -> bool {
    exists|n: nat| orphaned_within(tasks, task, n)
}

/// Whether all that a task depends on, by any chain, is among some tasks.
pub open spec fn is_standing(tasks: Seq<TaskView>) -> spec_fn(TaskView) -> bool {
    |task: TaskView| !orphaned(tasks, task)
}

/// The tasks that depend, by any chain, only on tasks that are there, in order.
pub open spec fn standing(tasks: Seq<TaskView>) -> Seq<TaskView> {
    tasks.filter(is_standing(tasks))
}

/// What depends on an orphan is one.
proof fn lemma_orphan(tasks: Seq<TaskView>, task: TaskView, dependency: Text)
    requires
        task.dependencies.contains(dependency),
        !task_ids(tasks).contains(dependency) || exists|j: int|
            0 <= j < tasks.len() && (#[trigger] tasks[j]).id == dependency && orphaned(
                tasks,
                tasks[j],
            ),
    ensures
        orphaned(tasks, task),
{
    if task_ids(tasks).contains(dependency) {
        let j = choose|j: int|
            0 <= j < tasks.len() && (#[trigger] tasks[j]).id == dependency && orphaned(
                tasks,
                tasks[j],
            );
        let n = choose|n: nat| orphaned_within(tasks, tasks[j], n);
        assert(orphaned_within(tasks, tasks[j], (n + 1 - 1) as nat));
        assert(orphaned_within(tasks, task, n + 1));
    } else {
        assert(orphaned_within(tasks, task, 1));
    }
}

/// Marks that take in what depends on a marked task, or on one that is not there, hold
/// every orphan.
proof fn lemma_marked_orphans(tasks: Seq<TaskView>, marks: Seq<bool>, i: int, n: nat)
    requires
        marks.len() == tasks.len(),
        forall|k: int, dependency: Text|
            0 <= k < tasks.len() && #[trigger] tasks[k].dependencies.contains(dependency)
                && is_gone(tasks, marks, dependency) ==> marks[k],
        0 <= i < tasks.len(),
        orphaned_within(tasks, tasks[i], n),
    ensures
        marks[i],
    decreases n,
{
    let dependency = choose|dependency: Text| #[trigger]
        tasks[i].dependencies.contains(dependency) && (!task_ids(tasks).contains(dependency)
            || exists|j: int|
            0 <= j < tasks.len() && (#[trigger] tasks[j]).id == dependency && orphaned_within(
                tasks,
                tasks[j],
                (n - 1) as nat,
            ));
    if task_ids(tasks).contains(dependency) {
        let j = choose|j: int|
            0 <= j < tasks.len() && (#[trigger] tasks[j]).id == dependency && orphaned_within(
                tasks,
                tasks[j],
                (n - 1) as nat,
            );
        lemma_marked_orphans(tasks, marks, j, (n - 1) as nat);
    }
    assert(is_gone(tasks, marks, dependency));
}

/// Whether there is no task of an id, or a marked one.
spec fn is_gone(tasks: Seq<TaskView>, marks: Seq<bool>, dependency: Text) -> bool {
    !task_ids(tasks).contains(dependency) || exists|j: int|
        0 <= j < tasks.len() && (#[trigger] tasks[j]).id == dependency && marks[j]
}

/// Decides whether there is no task of an id, or a marked one.
fn is_missing(tasks: &Vec<Task>, marks: &Vec<bool>, dependency: &String) -> (r: bool)
    requires
        marks.len() == tasks.len(),
    ensures
        r == is_gone(task_views(tasks@), marks@, dependency@),
{
    let ghost views = task_views(tasks@);
    let mut found = false;
    let mut j: usize = 0;
    while j < tasks.len()
        invariant
            j <= tasks.len(),
            marks.len() == tasks.len(),
            views == task_views(tasks@),
            found <==> exists|k: int|
                0 <= k < j && (#[trigger] views[k]).id == dependency@,
            forall|k: int| 0 <= k < j && (#[trigger] views[k]).id == dependency@ ==> !marks@[k],
        decreases tasks.len() - j,
    {
        assert(views[j as int].id == tasks@[j as int].id@);
        if tasks[j].id == *dependency {
            if marks[j] {
                return true;
            }
            found = true;
        }
        j = j + 1;
    }
    proof {
        let ids = task_ids(views);
        if found {
            let k = choose|k: int| 0 <= k < j && (#[trigger] views[k]).id == dependency@;
            assert(ids[k] == dependency@);
        } else if ids.contains(dependency@) {
            let k = choose|k: int| 0 <= k < ids.len() && ids[k] == dependency@;
            assert(views[k].id == dependency@);
        }
    }
    !found
}

/// Decides whether a task depends on one that is not there or is marked.
fn has_missing(tasks: &Vec<Task>, marks: &Vec<bool>, i: usize) -> (r: bool)
    requires
        marks.len() == tasks.len(),
        i < tasks.len(),
    ensures
        r <==> exists|dependency: Text| #[trigger]
            task_views(tasks@)[i as int].dependencies.contains(dependency) && is_gone(
                task_views(tasks@),
                marks@,
                dependency,
            ),
{
    let ghost views = task_views(tasks@);
    let ghost all = views[i as int].dependencies;
    let mut k: usize = 0;
    while k < tasks[i].dependencies.len()
        invariant
            marks.len() == tasks.len(),
            i < tasks.len(),
            views == task_views(tasks@),
            all == views[i as int].dependencies,
            all == texts(tasks@[i as int].dependencies@),
            k <= all.len(),
            forall|h: int| 0 <= h < k ==> !is_gone(views, marks@, #[trigger] all[h]),
        decreases all.len() - k,
    {
        if is_missing(tasks, marks, &tasks[i].dependencies[k]) {
            assert(all.contains(all[k as int]));
            return true;
        }
        k = k + 1;
    }
    false
}

/// Marks the orphans among tasks.
fn mark_orphans(tasks: &Vec<Task>) -> (marks: Vec<bool>)
    ensures
        marks.len() == tasks.len(),
        forall|i: int|
            0 <= i < marks.len() ==> (#[trigger] marks@[i] <==> orphaned(
                task_views(tasks@),
                task_views(tasks@)[i],
            )),
{
    let ghost views = task_views(tasks@);
    let mut marks: Vec<bool> = Vec::new();
    while marks.len() < tasks.len()
        invariant
            marks.len() <= tasks.len(),
            forall|i: int| 0 <= i < marks.len() ==> !marks@[i],
        decreases tasks.len() - marks.len(),
    {
        marks.push(false);
    }
    let mut changed: bool = true;
    while changed
        invariant
            views == task_views(tasks@),
            marks.len() == tasks.len(),
            forall|i: int|
                0 <= i < marks.len() && #[trigger] marks@[i] ==> orphaned(views, views[i]),
            !changed ==> forall|k: int, dependency: Text|
                0 <= k < views.len() && #[trigger] views[k].dependencies.contains(dependency)
                    && is_gone(views, marks@, dependency) ==> marks@[k],
        decreases unmarked(marks@), (if changed { 1int } else { 0int }),
    {
        changed = false;
        let ghost entry = marks@;
        let mut i: usize = 0;
        while i < tasks.len()
            invariant
                views == task_views(tasks@),
                marks.len() == tasks.len(),
                i <= tasks.len(),
                forall|k: int|
                    0 <= k < marks.len() && #[trigger] marks@[k] ==> orphaned(views, views[k]),
                changed ==> unmarked(marks@) < unmarked(entry),
                !changed ==> marks@ == entry,
                !changed ==> forall|k: int, dependency: Text|
                    0 <= k < i && #[trigger] views[k].dependencies.contains(dependency) && is_gone(
                        views,
                        marks@,
                        dependency,
                    ) ==> marks@[k],
            decreases tasks.len() - i,
        {
            if !marks[i] && has_missing(tasks, &marks, i) {
                proof {
                    let dependency = choose|dependency: Text| #[trigger]
                        views[i as int].dependencies.contains(dependency) && is_gone(
                            views,
                            marks@,
                            dependency,
                        );
                    if task_ids(views).contains(dependency) {
                        let j = choose|j: int|
                            0 <= j < views.len() && (#[trigger] views[j]).id == dependency
                                && marks@[j];
                        assert(orphaned(views, views[j]));
                    }
                    lemma_orphan(views, views[i as int], dependency);
                    lemma_mark(marks@, i as int);
                }
                marks.set(i, true);
                changed = true;
            }
            i = i + 1;
        }
    }
    proof {
        assert forall|i: int| 0 <= i < marks.len() implies (#[trigger] marks@[i] <==> orphaned(
            views,
            views[i],
        )) by {
            if orphaned(views, views[i]) {
                let n = choose|n: nat| orphaned_within(views, views[i], n);
                lemma_marked_orphans(views, marks@, i, n);
            }
        }
    }
    marks
}

/// Keeps the tasks that depend, by any chain, only on tasks that are there.
pub fn keep_standing(tasks: &mut Vec<Task>)
    ensures
        task_views(final(tasks)@) == standing(task_views(old(tasks)@)),
{
    let ghost all = task_views(tasks@);
    let ghost keep = is_standing(all);
    let marks = mark_orphans(tasks);
    let mut i: usize = 0;
    let mut m: usize = 0;
    proof {
        reveal(Seq::filter);
        assert(all.take(0).filter(keep) =~= Seq::empty());
        assert(task_views(tasks@) =~= all.take(0).filter(keep) + all.skip(0));
    }
    while m < marks.len()
        invariant
            m <= marks.len(),
            marks.len() == all.len(),
            keep == is_standing(all),
            forall|k: int| 0 <= k < marks.len() ==> (#[trigger] marks@[k] <==> orphaned(all, all[k])),
            i == all.take(m as int).filter(keep).len(),
            task_views(tasks@) == all.take(m as int).filter(keep) + all.skip(m as int),
        decreases marks.len() - m,
    {
        let ghost done = all.take(m as int).filter(keep);
        let ghost before = task_views(tasks@);
        proof {
            lemma_filter_step(all, m as int, keep);
            assert(all.skip(m as int)[0] == all[m as int]);
            assert(before.len() == tasks.len());
            assert(keep(all[m as int]) == !marks@[m as int]);
        }
        if marks[m] {
            tasks.remove(i);
            proof {
                assert(task_views(tasks@) =~= before.remove(i as int));
                assert(before.remove(i as int) =~= done + all.skip(m + 1));
            }
        } else {
            i = i + 1;
            assert(before =~= done.push(all[m as int]) + all.skip(m + 1));
        }
        m = m + 1;
    }
    proof {
        assert(all.take(m as int) =~= all);
        assert(task_views(tasks@) =~= all.filter(keep));
    }
}

/// What stands: tasks of the list, and all that they depend on stands too. Nothing else
/// is dropped than what depends on something that does not stand.
#[verifier::rlimit(50)]
pub proof fn law_standing(tasks: Seq<TaskView>, task: TaskView)
    requires
        task_ids(tasks).no_duplicates(),
    ensures
        dependencies_known(standing(tasks)),
        task_ids(standing(tasks)).no_duplicates(),
        standing(tasks).contains(task) <==> tasks.contains(task) && forall|dependency: Text|
            #[trigger]
            task.dependencies.contains(dependency) ==> task_ids(standing(tasks)).contains(
                dependency,
            ),
        dependencies_known(tasks) ==> standing(tasks) == tasks,
{
    let keep = is_standing(tasks);
    let left = standing(tasks);
    let ids = task_ids(tasks);
    lemma_filter_members(tasks, keep);
    assert forall|t: TaskView, dependency: Text|
        !orphaned(tasks, t) && #[trigger] t.dependencies.contains(dependency) implies task_ids(
        left,
    ).contains(dependency) by {
        if !ids.contains(dependency) {
            lemma_orphan(tasks, t, dependency);
        }
        let j = choose|j: int| 0 <= j < ids.len() && ids[j] == dependency;
        assert(tasks[j].id == dependency);
        if orphaned(tasks, tasks[j]) {
            lemma_orphan(tasks, t, dependency);
        }
        assert(keep(tasks[j]));
        assert(left.contains(tasks[j]));
        let k = choose|k: int| 0 <= k < left.len() && left[k] == tasks[j];
        assert(task_ids(left)[k] == dependency);
    }
    assert forall|i: int, dependency: Text|
        0 <= i < left.len() && #[trigger] left[i].dependencies.contains(
            dependency,
        ) implies task_ids(left).contains(dependency) by {
        assert(left.contains(left[i]));
        assert(keep(left[i]));
    }
    assert forall|i: int, j: int| 0 <= i < tasks.len() && 0 <= j < tasks.len() && i != j implies
        tasks[i] != tasks[j] by {
        assert(ids[i] != ids[j]);
    }
    assert(tasks.no_duplicates());
    assert forall|i: int, j: int|
        0 <= i < left.len() && 0 <= j < left.len() && i != j implies task_ids(left)[i] != task_ids(
        left,
    )[j] by {
        assert(left.contains(left[i]));
        assert(left.contains(left[j]));
        let a = choose|a: int| 0 <= a < tasks.len() && tasks[a] == left[i];
        let b = choose|b: int| 0 <= b < tasks.len() && tasks[b] == left[j];
        assert(ids[a] == left[i].id && ids[b] == left[j].id);
    }
    if tasks.contains(task) && (forall|dependency: Text| #[trigger]
        task.dependencies.contains(dependency) ==> task_ids(left).contains(dependency)) {
        if orphaned(tasks, task) {
            let n = choose|n: nat| orphaned_within(tasks, task, n);
            let dependency = choose|dependency: Text| #[trigger]
                task.dependencies.contains(dependency) && (!ids.contains(dependency)
                    || exists|j: int|
                    0 <= j < tasks.len() && (#[trigger] tasks[j]).id == dependency
                        && orphaned_within(tasks, tasks[j], (n - 1) as nat));
            let k = choose|k: int| 0 <= k < task_ids(left).len() && task_ids(left)[k] == dependency;
            assert(left.contains(left[k]));
            let a = choose|a: int| 0 <= a < tasks.len() && tasks[a] == left[k];
            assert(ids[a] == dependency);
            let j = choose|j: int|
                0 <= j < tasks.len() && (#[trigger] tasks[j]).id == dependency && orphaned_within(
                    tasks,
                    tasks[j],
                    (n - 1) as nat,
                );
            assert(ids[j] == ids[a]);
            assert(keep(tasks[a]));
            assert(false);
        }
        assert(keep(task));
    }
    if standing(tasks).contains(task) {
        assert(keep(task));
    }
    if dependencies_known(tasks) {
        assert forall|i: int| 0 <= i < tasks.len() implies keep(#[trigger] tasks[i]) by {
            if orphaned(tasks, tasks[i]) {
                let n = choose|n: nat| orphaned_within(tasks, tasks[i], n);
                lemma_no_orphan(tasks, i, n);
            }
        }
        lemma_filter_all(tasks, keep);
    }
}

/// Where every dependency is there, there is no orphan.
proof fn lemma_no_orphan(tasks: Seq<TaskView>, i: int, n: nat)
    requires
        dependencies_known(tasks),
        0 <= i < tasks.len(),
    ensures
        !orphaned_within(tasks, tasks[i], n),
    decreases n,
{
    if orphaned_within(tasks, tasks[i], n) {
        let dependency = choose|dependency: Text| #[trigger]
            tasks[i].dependencies.contains(dependency) && (!task_ids(tasks).contains(dependency)
                || exists|j: int|
                0 <= j < tasks.len() && (#[trigger] tasks[j]).id == dependency && orphaned_within(
                    tasks,
                    tasks[j],
                    (n - 1) as nat,
                ));
        let j = choose|j: int|
            0 <= j < tasks.len() && (#[trigger] tasks[j]).id == dependency && orphaned_within(
                tasks,
                tasks[j],
                (n - 1) as nat,
            );
        lemma_no_orphan(tasks, j, (n - 1) as nat);
    }
}

} // verus!
