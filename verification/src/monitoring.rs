//! Monitoring hooks: what a task has run when it starts, ends or goes on.

use crate::path::{Location, LocationView};
use crate::text::Text;
use vstd::prelude::*;

verus! {

/// Nanoseconds in a second.
pub const NANOS_PER_SEC: u128 = 1_000_000_000;

/// When a hook is due.
#[derive(Debug, Clone, Copy, PartialEq, Eq, Structural)]
pub enum HookTrigger {
    /// Once, when the task has started.
    OnStart,
    /// Once, when the task has completed.
    OnComplete,
    /// Once, when the task has failed.
    OnFailure,
    /// Again and again while the task is in flight.
    Periodic { interval_secs: u64 },
}

/// What a task is going through when a hook is run.
#[derive(Debug, Clone, Copy, PartialEq, Eq, Structural)]
pub enum TaskPhase {
    Running,
    Completed,
    Failed,
}

/// A hook of a task.
#[derive(Debug)]
pub struct MonitoringHook {
    pub name: String,
    pub command: String,
    pub trigger: HookTrigger,
}

/// The content of a [`MonitoringHook`].
pub struct MonitoringHookView {
    pub name: Text,
    pub command: Text,
    pub trigger: HookTrigger,
}

impl View for MonitoringHook {
    type V = MonitoringHookView;

    open spec fn view(&self) -> MonitoringHookView {
        MonitoringHookView { name: self.name@, command: self.command@, trigger: self.trigger }
    }
}

/// What a hook is told of its task.
#[derive(Debug)]
pub struct HookContext {
    pub task_id: String,
    pub workdir: Location,
    pub phase: TaskPhase,
    pub exit_code: Option<i32>,
}

/// The content of a [`HookContext`].
pub struct HookContextView {
    pub task_id: Text,
    pub workdir: LocationView,
    pub phase: TaskPhase,
    pub exit_code: Option<i32>,
}

impl View for HookContext {
    type V = HookContextView;

    open spec fn view(&self) -> HookContextView {
        HookContextView {
            task_id: self.task_id@,
            workdir: self.workdir@,
            phase: self.phase,
            exit_code: self.exit_code,
        }
    }
}

/// Hooks that are to be run, and what they are told.
#[derive(Debug)]
pub struct HookBatch {
    pub hooks: Vec<MonitoringHook>,
    pub context: HookContext,
}

/// The content of a [`HookBatch`].
pub struct HookBatchView {
    pub hooks: Seq<MonitoringHookView>,
    pub context: HookContextView,
}

impl View for HookBatch {
    type V = HookBatchView;

    open spec fn view(&self) -> HookBatchView {
        HookBatchView { hooks: hook_views(self.hooks@), context: self.context@ }
    }
}

/// The contents of a sequence of hooks.
pub open spec fn hook_views(hooks: Seq<MonitoringHook>) -> Seq<MonitoringHookView> {
    hooks.map_values(|hook: MonitoringHook| hook@)
}

/// Whether entering a phase makes a hook of that trigger due.
pub open spec fn fires(trigger: HookTrigger, phase: TaskPhase) -> bool {
    match trigger {
        HookTrigger::OnStart => phase == TaskPhase::Running,
        HookTrigger::OnComplete => phase == TaskPhase::Completed,
        HookTrigger::OnFailure => phase == TaskPhase::Failed,
        HookTrigger::Periodic { interval_secs } => false,
    }
}

/// The hooks that are due when a phase is entered, in their order.
pub open spec fn hooks_due(
    monitors: Seq<MonitoringHookView>,
    phase: TaskPhase,
) -> Seq<MonitoringHookView> {
    monitors.filter(|hook: MonitoringHookView| fires(hook.trigger, phase))
}

/// The time that has passed from `since` to `now`, zero if `now` is the earlier.
pub open spec fn elapsed(since: u128, now: u128) -> int {
    if now >= since {
        now - since
    } else {
        0
    }
}

/// Whether a hook is due again: it is periodic, and its interval has passed.
pub open spec fn periodic_due(trigger: HookTrigger, last: u128, now: u128) -> bool {
    match trigger {
        HookTrigger::Periodic { interval_secs } => elapsed(last, now) >= interval_secs
            * NANOS_PER_SEC,
        _ => false,
    }
}

/// The time that has passed from `since` to `now`.
pub fn elapsed_nanos(since: u128, now: u128) -> (r: u128)
    ensures
        r == elapsed(since, now),
        r == (if now >= since {
            now - since
        } else {
            0
        }),
{
    if now >= since {
        now - since
    } else {
        0
    }
}

/// Decides whether a hook that last ran at `last` is due again.
pub fn is_periodic_due(trigger: HookTrigger, last: u128, now: u128) -> (r: bool)
    ensures
        r == periodic_due(trigger, last, now),
        r <==> (trigger matches HookTrigger::Periodic { interval_secs } && (interval_secs == 0 || (
        now >= last && now - last >= interval_secs * 1_000_000_000))),
{
    match trigger {
        HookTrigger::Periodic { interval_secs } => {
            assert(interval_secs * NANOS_PER_SEC <= u64::MAX * NANOS_PER_SEC) by (nonlinear_arith)
                requires
                    interval_secs <= u64::MAX,
            ;
            elapsed_nanos(last, now) >= interval_secs as u128 * NANOS_PER_SEC
        },
        _ => false,
    }
}

/// Decides whether entering a phase makes a hook of that trigger due.
pub fn is_fired_by(trigger: HookTrigger, phase: TaskPhase) -> (r: bool)
    ensures
        r == fires(trigger, phase),
        r <==> {
            ||| trigger == HookTrigger::OnStart && phase == TaskPhase::Running
            ||| trigger == HookTrigger::OnComplete && phase == TaskPhase::Completed
            ||| trigger == HookTrigger::OnFailure && phase == TaskPhase::Failed
        },
{
    match trigger {
        HookTrigger::OnStart => phase == TaskPhase::Running,
        HookTrigger::OnComplete => phase == TaskPhase::Completed,
        HookTrigger::OnFailure => phase == TaskPhase::Failed,
        HookTrigger::Periodic { .. } => false,
    }
}

impl MonitoringHook {
    /// Copies the hook.
    pub fn copy(&self) -> (r: MonitoringHook)
        ensures
            r@ == self@,
    {
        MonitoringHook {
            name: self.name.clone(),
            command: self.command.clone(),
            trigger: self.trigger,
        }
    }
}

/// Copies a list of hooks.
pub fn copy_hooks(hooks: &Vec<MonitoringHook>) -> (r: Vec<MonitoringHook>)
    ensures
        hook_views(r@) == hook_views(hooks@),
{
    let mut r: Vec<MonitoringHook> = Vec::new();
    let mut i: usize = 0;
    while i < hooks.len()
        invariant
            i <= hooks.len(),
            r.len() == i,
            forall|j: int| 0 <= j < i ==> hook_views(r@)[j] == hook_views(hooks@)[j],
        decreases hooks.len() - i,
    {
        r.push(hooks[i].copy());
        i = i + 1;
    }
    assert(hook_views(r@) =~= hook_views(hooks@));
    r
}

impl HookBatch {
    /// Copies the hooks and what they are told.
    pub fn copy(&self) -> (r: HookBatch)
        ensures
            r@ == self@,
    {
        HookBatch {
            hooks: copy_hooks(&self.hooks),
            context: HookContext {
                task_id: self.context.task_id.clone(),
                workdir: self.context.workdir.copy(),
                phase: self.context.phase,
                exit_code: self.context.exit_code,
            },
        }
    }
}

/// Collects the hooks that are due when a phase is entered.
fn due_hooks(monitors: &Vec<MonitoringHook>, phase: TaskPhase) -> (r: Vec<MonitoringHook>)
    ensures
        hook_views(r@) == hooks_due(hook_views(monitors@), phase),
{
    let ghost due = |hook: MonitoringHookView| fires(hook.trigger, phase);
    let ghost all = hook_views(monitors@);
    let mut r: Vec<MonitoringHook> = Vec::new();
    let mut i: usize = 0;
    proof {
        reveal(Seq::filter);
        assert(hook_views(r@) =~= all.take(0).filter(due));
    }
    while i < monitors.len()
        invariant
            i <= monitors.len(),
            all == hook_views(monitors@),
            due == (|hook: MonitoringHookView| fires(hook.trigger, phase)),
            hook_views(r@) == all.take(i as int).filter(due),
        decreases monitors.len() - i,
    {
        let ghost before = r@;
        proof {
            reveal(Seq::filter);
            assert(all.take(i + 1).drop_last() =~= all.take(i as int));
        }
        if is_fired_by(monitors[i].trigger, phase) {
            let hook = monitors[i].copy();
            r.push(hook);
            assert(hook_views(r@) =~= hook_views(before).push(hook@));
        }
        i = i + 1;
    }
    assert(all.take(i as int) =~= all);
    r
}

/// Collects the hooks of a task that are to be run because it has entered a phase,
/// with what they are told of the task.
pub fn fire_hooks(
    monitors: &Vec<MonitoringHook>,
    workdir: &Location,
    phase: TaskPhase,
    exit_code: Option<i32>,
    task_id: &String,
) -> (r: HookBatch)
    ensures
        r@.hooks == hooks_due(hook_views(monitors@), phase),
        r@.context == (HookContextView {
            task_id: task_id@,
            workdir: workdir@,
            phase,
            exit_code,
        }),
{
    HookBatch {
        hooks: due_hooks(monitors, phase),
        context: HookContext {
            task_id: task_id.clone(),
            workdir: workdir.copy(),
            phase,
            exit_code,
        },
    }
}

} // verus!
