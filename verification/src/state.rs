//! The statuses of the tasks of a workflow.

use crate::lists::{lemma_filter_all, lemma_filter_step, lemma_push_contains};
use crate::text::{texts, Text};
use vstd::hash_map::StringHashMap;
use vstd::prelude::*;

verus! {

/// How far a task has come.
#[derive(Debug)]
pub enum TaskStatus {
    /// It waits to be started.
    Pending,
    /// It has been started and has not ended.
    Running,
    /// It has ended well.
    Completed,
    /// It has ended badly; `error` says how.
    Failed { error: String },
    /// It is left out on request.
    Skipped,
    /// It is left out because a task that it depends on has failed or was left out.
    SkippedDueToDependencyFailure,
}

/// The content of a [`TaskStatus`].
pub enum TaskStatusView {
    Pending,
    Running,
    Completed,
    Failed { error: Text },
    Skipped,
    SkippedDueToDependencyFailure,
}

impl View for TaskStatus {
    type V = TaskStatusView;

    open spec fn view(&self) -> TaskStatusView {
        match *self {
            TaskStatus::Pending => TaskStatusView::Pending,
            TaskStatus::Running => TaskStatusView::Running,
            TaskStatus::Completed => TaskStatusView::Completed,
            TaskStatus::Failed { error } => TaskStatusView::Failed { error: error@ },
            TaskStatus::Skipped => TaskStatusView::Skipped,
            TaskStatus::SkippedDueToDependencyFailure =>
                TaskStatusView::SkippedDueToDependencyFailure,
        }
    }
}

impl TaskStatusView {
    /// The task needs no further work, and its dependents need not wait for it.
    pub open spec fn done(self) -> bool {
        self is Completed || self is Skipped || self is SkippedDueToDependencyFailure
    }

    /// The task will not be worked on again.
    pub open spec fn terminal(self) -> bool {
        self.done() || self is Failed
    }

    /// The status with which a later run takes the task up: what was under way or
    /// was left out for a dependency's sake waits again.
    pub open spec fn recovered(self) -> TaskStatusView {
        if self is Running || self is SkippedDueToDependencyFailure {
            TaskStatusView::Pending
        } else {
            self
        }
    }

    /// Tasks that depend on the task are to be left out.
    pub open spec fn blocks_dependents(self) -> bool {
        self is Failed || self is Skipped || self is SkippedDueToDependencyFailure
    }
}

impl TaskStatus {
    /// Whether dependents need not wait for the task.
    pub fn is_done(&self) -> (r: bool)
        ensures
            r == self@.done(),
            r <==> (self is Completed || self is Skipped || self is SkippedDueToDependencyFailure),
    {
        matches!(
            self,
            TaskStatus::Completed | TaskStatus::Skipped | TaskStatus::SkippedDueToDependencyFailure
        )
    }

    /// Whether the task will not be worked on again.
    pub fn is_terminal(&self) -> (r: bool)
        ensures
            r == self@.terminal(),
            r <==> !(self is Pending || self is Running),
    {
        matches!(
            self,
            TaskStatus::Completed | TaskStatus::Failed { .. } | TaskStatus::Skipped
                | TaskStatus::SkippedDueToDependencyFailure
        )
    }

    /// Copies the status.
    pub fn copy(&self) -> (r: TaskStatus)
        ensures
            r@ == self@,
    {
        match self {
            TaskStatus::Pending => TaskStatus::Pending,
            TaskStatus::Running => TaskStatus::Running,
            TaskStatus::Completed => TaskStatus::Completed,
            TaskStatus::Failed { error } => TaskStatus::Failed { error: error.clone() },
            TaskStatus::Skipped => TaskStatus::Skipped,
            TaskStatus::SkippedDueToDependencyFailure => TaskStatus::SkippedDueToDependencyFailure,
        }
    }

    /// The status with which a later run takes the task up.
    pub fn recover(self) -> (r: TaskStatus)
        ensures
            r@ == self@.recovered(),
            self is Running || self is SkippedDueToDependencyFailure ==> r is Pending,
            !(self is Running || self is SkippedDueToDependencyFailure) ==> r == self,
    {
        match self {
            TaskStatus::Running | TaskStatus::SkippedDueToDependencyFailure => TaskStatus::Pending,
            status => status,
        }
    }

    /// Whether dependents of the task are to be left out.
    pub fn is_blocking_dependents(&self) -> (r: bool)
        ensures
            r == self@.blocks_dependents(),
            r <==> (self is Failed || self is Skipped || self is SkippedDueToDependencyFailure),
    {
        matches!(
            self,
            TaskStatus::Failed { .. } | TaskStatus::Skipped
                | TaskStatus::SkippedDueToDependencyFailure
        )
    }
}

/// The statuses of tasks by id, with the ids in the order in which they came.
pub struct TaskStates {
    ids: Vec<String>,
    table: StringHashMap<TaskStatus>,
}

/// The content of [`TaskStates`].
#[verifier::ext_equal]
pub struct TaskStatesView {
    pub ids: Seq<Text>,
    pub status: Map<Text, TaskStatusView>,
}

impl View for TaskStates {
    type V = TaskStatesView;

    closed spec fn view(&self) -> TaskStatesView {
        TaskStatesView { ids: texts(self.ids@), status: status_views(self.table@) }
    }
}

/// The contents of the statuses of a table.
pub open spec fn status_views(table: Map<Text, TaskStatus>) -> Map<Text, TaskStatusView> {
    table.map_values(|status: TaskStatus| status@)
}

impl TaskStatesView {
    /// No id is listed twice, and those listed are those that have a status.
    pub open spec fn wf(self) -> bool {
        &&& self.ids.no_duplicates()
        &&& forall|id: Text| self.ids.contains(id) <==> #[trigger] self.status.contains_key(id)
    }

    /// The status of a task, if it has one.
    pub open spec fn get(self, id: Text) -> Option<TaskStatusView> {
        if self.status.contains_key(id) {
            Some(self.status[id])
        } else {
            None
        }
    }

    /// Whether the task has the status `Pending`.
    pub open spec fn is_pending(self, id: Text) -> bool {
        self.status.contains_key(id) && self.status[id] is Pending
    }

    /// The statuses after one task has been given a status.
    pub open spec fn set(self, id: Text, status: TaskStatusView) -> TaskStatesView {
        TaskStatesView {
            ids: if self.status.contains_key(id) {
                self.ids
            } else {
                self.ids.push(id)
            },
            status: self.status.insert(id, status),
        }
    }

    /// The statuses after each of several tasks has been given the same status.
    pub open spec fn set_all(self, ids: Seq<Text>, status: TaskStatusView) -> TaskStatesView
        decreases ids.len(),
    {
        if ids.len() == 0 {
            self
        } else {
            self.set_all(ids.drop_last(), status).set(ids.last(), status)
        }
    }

    /// The statuses after each of several tasks that had none has become `Pending`.
    pub open spec fn with_pending(self, ids: Seq<Text>) -> TaskStatesView
        decreases ids.len(),
    {
        if ids.len() == 0 {
            self
        } else {
            let before = self.with_pending(ids.drop_last());
            if before.status.contains_key(ids.last()) {
                before
            } else {
                before.set(ids.last(), TaskStatusView::Pending)
            }
        }
    }

    /// The ids with their statuses, in order.
    pub open spec fn entries(self) -> Seq<(Text, TaskStatusView)> {
        self.ids.filter(|id: Text| self.status.contains_key(id)).map_values(
            |id: Text| (id, self.status[id]),
        )
    }

    /// The statuses with which a later run starts.
    pub open spec fn recovered(self) -> TaskStatesView {
        TaskStatesView {
            ids: self.ids,
            status: self.status.map_values(|status: TaskStatusView| status.recovered()),
        }
    }

    /// The ids of the tasks whose status meets a condition, in order.
    pub open spec fn ids_with(self, wanted: spec_fn(TaskStatusView) -> bool) -> Seq<Text> {
        self.ids.filter(|id: Text| self.status.contains_key(id) && wanted(self.status[id]))
    }
}

/// A task that has been given a status has that status; every other task has the one that
/// it had.
pub proof fn law_set_status(
    states: TaskStatesView,
    id: Text,
    status: TaskStatusView,
    other: Text,
)
    ensures
        states.set(id, status).get(id) == Some(status),
        other != id ==> states.set(id, status).get(other) == states.get(other),
        states.get(id) is Some ==> states.set(id, status).ids == states.ids,
        states.get(id) is None ==> states.set(id, status).ids == states.ids.push(id),
        states.get(other) matches Some(status) ==> states.status.contains_key(other)
            && states.status[other] == status,
        states.get(other) is None ==> !states.status.contains_key(other),
{
}

/// The list of all statuses holds each task that has one, once, with its status, and no
/// other.
pub proof fn law_entries(states: TaskStatesView, id: Text, status: TaskStatusView)
    requires
        states.wf(),
    ensures
        states.entries().contains((id, status)) <==> states.get(id) == Some(status),
        states.entries().len() == states.ids.len(),
        forall|i: int, j: int|
            0 <= i < j < states.entries().len() ==> (#[trigger] states.entries()[i]).0 != (
            #[trigger] states.entries()[j]).0,
{
    let known = |id: Text| states.status.contains_key(id);
    assert forall|i: int| 0 <= i < states.ids.len() implies known(#[trigger] states.ids[i]) by {
        assert(states.ids.contains(states.ids[i]));
    }
    lemma_filter_all(states.ids, known);
    let entries = states.entries();
    assert forall|i: int| 0 <= i < entries.len() implies #[trigger] entries[i] == (
        states.ids[i],
        states.status[states.ids[i]],
    ) by {}
    if entries.contains((id, status)) {
        let i = choose|i: int| 0 <= i < entries.len() && entries[i] == (id, status);
        assert(states.ids.contains(states.ids[i]));
    }
    if states.get(id) == Some(status) {
        assert(states.ids.contains(id));
        let i = choose|i: int| 0 <= i < states.ids.len() && states.ids[i] == id;
        assert(entries[i] == (id, status));
    }
}

/// Giving a task a status keeps the statuses well formed.
pub proof fn lemma_set_wf(states: TaskStatesView, id: Text, status: TaskStatusView)
    requires
        states.wf(),
    ensures
        states.set(id, status).wf(),
{
    let after = states.set(id, status);
    assert forall|other: Text| after.ids.contains(other) <==> #[trigger] after.status.contains_key(
        other,
    ) by {
        if !states.status.contains_key(id) {
            lemma_push_contains(states.ids, id, other);
        }
        assert(states.ids.contains(other) <==> states.status.contains_key(other));
    }
    if !states.status.contains_key(id) {
        assert(!states.ids.contains(id));
    }
}

impl TaskStates {
    /// Creates a store in which no task has a status.
    pub fn new() -> (r: TaskStates)
        ensures
            r@.ids == Seq::<Text>::empty(),
            r@.status == Map::<Text, TaskStatusView>::empty(),
            r@.wf(),
    {
        let r = TaskStates { ids: Vec::new(), table: StringHashMap::new() };
        assert(r@.ids =~= Seq::<Text>::empty());
        assert(r@.status =~= Map::<Text, TaskStatusView>::empty());
        r
    }

    /// The status of a task.
    pub fn get_status(&self, id: &str) -> (r: Option<&TaskStatus>)
        ensures
            match r {
                Some(status) => self@.get(id@) == Some(status@),
                None => self@.get(id@) is None,
            },
    {
        self.table.get(id)
    }

    /// Gives a task a status.
    pub fn set_status(&mut self, id: &String, status: TaskStatus)
        ensures
            final(self)@ == old(self)@.set(id@, status@),
            old(self)@.wf() ==> final(self)@.wf(),
    {
        if !self.table.contains_key(id.as_str()) {
            self.ids.push(id.clone());
        }
        self.table.insert(id.clone(), status);
        assert(self@ =~= old(self)@.set(id@, status@));
        proof {
            if old(self)@.wf() {
                lemma_set_wf(old(self)@, id@, status@);
            }
        }
    }

    /// The ids that have a status, in the order in which they came.
    pub fn ids(&self) -> (r: &Vec<String>)
        ensures
            texts(r@) == self@.ids,
    {
        &self.ids
    }

    /// All ids with their statuses.
    pub fn all_tasks(&self) -> (r: Vec<(String, TaskStatus)>)
        ensures
            entry_views(r@) == self@.entries(),
    {
        let ghost all = self@.ids;
        let ghost known = |id: Text| self@.status.contains_key(id);
        let ghost entry = |id: Text| (id, self@.status[id]);
        let mut r: Vec<(String, TaskStatus)> = Vec::new();
        let mut i: usize = 0;
        proof {
            reveal(Seq::filter);
            assert(entry_views(r@) =~= all.take(0).filter(known).map_values(entry));
        }
        while i < self.ids.len()
            invariant
                i <= self.ids.len(),
                all == self@.ids,
                all == texts(self.ids@),
                known == (|id: Text| self@.status.contains_key(id)),
                entry == (|id: Text| (id, self@.status[id])),
                entry_views(r@) == all.take(i as int).filter(known).map_values(entry),
            decreases self.ids.len() - i,
        {
            let ghost before = r@;
            proof {
                lemma_filter_step(all, i as int, known);
            }
            if let Some(status) = self.get_status(self.ids[i].as_str()) {
                let item = (self.ids[i].clone(), status.copy());
                r.push(item);
                proof {
                    assert(entry_views(r@) =~= entry_views(before).push((item.0@, item.1@)));
                    assert(all.take(i + 1).filter(known).map_values(entry) =~= entry_views(
                        before,
                    ).push((item.0@, item.1@)));
                }
            }
            i = i + 1;
        }
        assert(all.take(i as int) =~= all);
        r
    }

    /// Gives each of several tasks that has no status the status `Pending`.
    pub fn init_pending(&mut self, ids: &Vec<String>)
        ensures
            final(self)@ == old(self)@.with_pending(texts(ids@)),
            old(self)@.wf() ==> final(self)@.wf(),
    {
        let ghost all = texts(ids@);
        let mut i: usize = 0;
        assert(all.take(0) =~= Seq::<Text>::empty());
        while i < ids.len()
            invariant
                i <= ids.len(),
                all == texts(ids@),
                self@ == old(self)@.with_pending(all.take(i as int)),
                old(self)@.wf() ==> self@.wf(),
            decreases ids.len() - i,
        {
            proof {
                assert(all.take(i + 1).drop_last() =~= all.take(i as int));
            }
            if self.get_status(ids[i].as_str()).is_none() {
                self.set_status(&ids[i], TaskStatus::Pending);
            }
            i = i + 1;
        }
        assert(all.take(i as int) =~= all);
    }

    /// Puts each of several tasks back to `Pending`.
    pub fn reset_pending(&mut self, ids: &Vec<String>)
        ensures
            final(self)@ == old(self)@.set_all(texts(ids@), TaskStatusView::Pending),
            old(self)@.wf() ==> final(self)@.wf(),
    {
        let ghost all = texts(ids@);
        let mut i: usize = 0;
        assert(all.take(0) =~= Seq::<Text>::empty());
        while i < ids.len()
            invariant
                i <= ids.len(),
                all == texts(ids@),
                self@ == old(self)@.set_all(all.take(i as int), TaskStatusView::Pending),
                old(self)@.wf() ==> self@.wf(),
            decreases ids.len() - i,
        {
            proof {
                assert(all.take(i + 1).drop_last() =~= all.take(i as int));
            }
            self.set_status(&ids[i], TaskStatus::Pending);
            i = i + 1;
        }
        assert(all.take(i as int) =~= all);
    }

    /// Puts the statuses into the form in which a later run starts from them.
    pub fn recover(self) -> (r: TaskStates)
        ensures
            self@.wf() ==> r@ == self@.recovered() && r@.wf(),
    {
        let mut r = TaskStates::new();
        let mut i: usize = 0;
        while i < self.ids.len()
            invariant
                i <= self.ids.len(),
                self@.ids == texts(self.ids@),
                r@.wf(),
                self@.wf() ==> r@.ids == self@.ids.take(i as int),
                self@.wf() ==> forall|id: Text| #[trigger]
                    r@.status.contains_key(id) <==> self@.ids.take(i as int).contains(id),
                self@.wf() ==> forall|id: Text| #[trigger]
                    r@.status.contains_key(id) ==> r@.status[id] == self@.status[id].recovered(),
            decreases self.ids.len() - i,
        {
            let ghost all = self@.ids;
            proof {
                let id = all[i as int];
                assert(all.take(i + 1) =~= all.take(i as int).push(id));
                if self@.wf() {
                    assert(all.contains(id));
                    if all.take(i as int).contains(id) {
                        let j = choose|j: int| 0 <= j < i && all.take(i as int)[j] == id;
                        assert(all[j] == all[i as int]);
                    }
                    assert forall|a: Text| #[trigger] all.take(i + 1).contains(a) <==> all.take(
                        i as int,
                    ).contains(a) || a == id by {
                        lemma_push_contains(all.take(i as int), id, a);
                    }
                }
            }
            if let Some(status) = self.get_status(self.ids[i].as_str()) {
                r.set_status(&self.ids[i], status.copy().recover());
            }
            i = i + 1;
        }
        proof {
            assert(self@.ids.take(i as int) =~= self@.ids);
            if self@.wf() {
                assert(r@.status =~= self@.recovered().status);
            }
        }
        r
    }

    /// Marks a task as started.
    pub fn mark_running(&mut self, id: &String)
        ensures
            final(self)@ == old(self)@.set(id@, TaskStatusView::Running),
            old(self)@.wf() ==> final(self)@.wf(),
    {
        self.set_status(id, TaskStatus::Running);
    }

    /// Marks a task as ended well.
    pub fn mark_completed(&mut self, id: &String)
        ensures
            final(self)@ == old(self)@.set(id@, TaskStatusView::Completed),
            old(self)@.wf() ==> final(self)@.wf(),
    {
        self.set_status(id, TaskStatus::Completed);
    }

    /// Marks a task as ended badly.
    pub fn mark_failed(&mut self, id: &String, error: String)
        ensures
            final(self)@ == old(self)@.set(id@, TaskStatusView::Failed { error: error@ }),
            old(self)@.wf() ==> final(self)@.wf(),
    {
        self.set_status(id, TaskStatus::Failed { error });
    }

    /// Marks a task as left out for a dependency's sake.
    pub fn mark_skipped_due_to_dep_failure(&mut self, id: &String)
        ensures
            final(self)@ == old(self)@.set(id@, TaskStatusView::SkippedDueToDependencyFailure),
            old(self)@.wf() ==> final(self)@.wf(),
    {
        self.set_status(id, TaskStatus::SkippedDueToDependencyFailure);
    }

    /// Whether a task has ended well.
    pub fn is_completed(&self, id: &str) -> (r: bool)
        ensures
            r == (self@.get(id@) == Some(TaskStatusView::Completed)),
    {
        matches!(self.get_status(id), Some(TaskStatus::Completed))
    }
}

/// The contents of a list of ids with statuses.
pub open spec fn entry_views(entries: Seq<(String, TaskStatus)>) -> Seq<(Text, TaskStatusView)> {
    entries.map_values(|entry: (String, TaskStatus)| (entry.0@, entry.1@))
}

/// The direct successors of each task, by id.
pub struct TaskSuccessors {
    table: StringHashMap<Vec<String>>,
}

impl View for TaskSuccessors {
    type V = Map<Text, Seq<Text>>;

    closed spec fn view(&self) -> Map<Text, Seq<Text>> {
        self.table@.map_values(|ids: Vec<String>| texts(ids@))
    }
}

impl TaskSuccessors {
    /// Creates a table without tasks.
    pub fn new() -> (r: TaskSuccessors)
        ensures
            r@ == Map::<Text, Seq<Text>>::empty(),
    {
        let r = TaskSuccessors { table: StringHashMap::new() };
        assert(r@ =~= Map::<Text, Seq<Text>>::empty());
        r
    }

    /// Sets the successors of a task.
    pub fn insert(&mut self, id: &String, successors: Vec<String>)
        ensures
            final(self)@ == old(self)@.insert(id@, texts(successors@)),
    {
        self.table.insert(id.clone(), successors);
        assert(self@ =~= old(self)@.insert(id@, texts(successors@)));
    }

    /// The successors of a task.
    pub fn get(&self, id: &str) -> (r: Option<&Vec<String>>)
        ensures
            match r {
                Some(ids) => self@.contains_key(id@) && self@[id@] == texts(ids@),
                None => !self@.contains_key(id@),
            },
    {
        self.table.get(id)
    }
}

} // verus!
