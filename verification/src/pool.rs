//! The bookkeeping of a scoped pool of worker threads.
//!
//! The pool itself is threads, a queue and a condition variable, and stands
//! outside this library. What it decides is here: how many workers to start,
//! how the count of outstanding tasks moves, and when a scope may return.
//! The counter sits behind the pool's lock. A scope registers a task before
//! it queues it, a worker reports a task when the task has returned, and a
//! scope returns only on a drained counter.
use vstd::prelude::*;

verus! {

/// The number of workers where the host reports no parallelism.
pub const FALLBACK_WORKERS: usize = 4;

/// The number of workers to start: the parallelism that the host reports,
/// or the fallback.
pub fn worker_count(available: Option<usize>) -> (workers: usize)
    ensures
        workers == match available {
            Some(reported) => reported,
            None => FALLBACK_WORKERS,
        },
{
    match available {
        Some(reported) => reported,
        None => FALLBACK_WORKERS,
    }
}

/// What happens to a pool, as far as its counter is concerned.
pub enum PoolEvent {
    /// A scope is entered. It borrows the pool exclusively.
    ScopeEntered,
    /// The scope registers a task, to queue it next.
    TaskRegistered,
    /// A worker reports that a task has returned.
    TaskDone,
    /// The scope returns.
    ScopeReturned,
}

/// The state of a pool, as far as its counter is concerned.
pub struct PoolState {
    /// Whether a scope is open.
    pub in_scope: bool,
    /// The counter: the number of outstanding tasks.
    pub outstanding: nat,
    /// The counter as it was when the open scope, or else the last one, was
    /// entered.
    pub at_entry: nat,
    /// How many tasks were ever registered.
    pub registered: nat,
    /// How many tasks were ever reported done.
    pub done: nat,
}

/// The state of a new pool.
pub open spec fn initial_state() -> PoolState {
    PoolState { in_scope: false, outstanding: 0, at_entry: 0, registered: 0, done: 0 }
}

/// Whether `event` can happen in `state`: one scope at a time, tasks only
/// through a scope, reports only of outstanding tasks, and a return only on
/// a drained counter.
pub open spec fn enabled(state: PoolState, event: PoolEvent) -> bool {
    match event {
        PoolEvent::ScopeEntered => !state.in_scope,
        PoolEvent::TaskRegistered => state.in_scope,
        PoolEvent::TaskDone => state.outstanding > 0,
        PoolEvent::ScopeReturned => state.in_scope && state.outstanding == 0,
    }
}

/// The state after `event`.
pub open spec fn after(state: PoolState, event: PoolEvent) -> PoolState {
    match event {
        PoolEvent::ScopeEntered => PoolState {
            in_scope: true,
            at_entry: state.outstanding,
            ..state
        },
        PoolEvent::TaskRegistered => PoolState {
            outstanding: state.outstanding + 1,
            registered: state.registered + 1,
            ..state
        },
        PoolEvent::TaskDone => PoolState {
            outstanding: (state.outstanding - 1) as nat,
            done: state.done + 1,
            ..state
        },
        PoolEvent::ScopeReturned => PoolState { in_scope: false, ..state },
    }
}

/// What holds of every state that a pool can reach: the counter tells how
/// many registered tasks have not been reported done, and outside a scope,
/// as at the entry of every scope, it is zero.
pub open spec fn consistent(state: PoolState) -> bool {
    &&& state.done <= state.registered
    &&& state.outstanding == state.registered - state.done
    &&& !state.in_scope ==> state.outstanding == 0
    &&& state.at_entry == 0
}

/// Whether the events can happen one after the other, from a new pool on.
pub open spec fn is_history(events: Seq<PoolEvent>) -> bool
    decreases events.len(),
{
    events.len() == 0 || (is_history(events.drop_last()) && enabled(
        state_after(events.drop_last()),
        events.last(),
    ))
}

/// The state of a pool with the history `events`.
pub open spec fn state_after(events: Seq<PoolEvent>) -> PoolState
    decreases events.len(),
{
    if events.len() == 0 {
        initial_state()
    } else {
        after(state_after(events.drop_last()), events.last())
    }
}

/// An event that can happen leaves a consistent state consistent.
pub proof fn lemma_step_consistent(state: PoolState, event: PoolEvent)
    requires
        consistent(state),
        enabled(state, event),
    ensures
        consistent(after(state, event)),
{
}

/// Whatever has happened to a pool, its state is consistent: the counter is
/// never negative, and it is the number of tasks registered less the number
/// of tasks done.
pub proof fn lemma_history_consistent(events: Seq<PoolEvent>)
    requires
        is_history(events),
    ensures
        consistent(state_after(events)),
    decreases events.len(),
{
    if events.len() > 0 {
        lemma_history_consistent(events.drop_last());
        lemma_step_consistent(state_after(events.drop_last()), events.last());
    }
}

/// A scope drains: when a scope returns, the counter is what it was when
/// the scope was entered, and every task that was ever registered has been
/// reported done.
pub proof fn lemma_scope_drains(events: Seq<PoolEvent>)
    requires
        is_history(events),
        events.len() > 0,
        events.last() is ScopeReturned,
    ensures
        state_after(events).outstanding == state_after(events).at_entry,
        state_after(events).done == state_after(events).registered,
{
    lemma_history_consistent(events);
}

/// The counter of a pool. It is kept consistent, so it can only take the
/// steps that are enabled.
pub struct TaskCounter {
    outstanding: usize,
    in_scope: bool,
    registered: Ghost<nat>,
    done: Ghost<nat>,
}

impl View for TaskCounter {
    type V = PoolState;

    closed spec fn view(&self) -> PoolState {
        PoolState {
            in_scope: self.in_scope,
            outstanding: self.outstanding as nat,
            at_entry: 0,
            registered: self.registered@,
            done: self.done@,
        }
    }
}

impl TaskCounter {
    #[verifier::type_invariant]
    spec fn kept_consistent(self) -> bool {
        consistent(self@)
    }

    /// The counter of a new pool.
    pub fn new() -> (counter: TaskCounter)
        ensures
            counter@ == initial_state(),
    {
        TaskCounter { outstanding: 0, in_scope: false, registered: Ghost(0), done: Ghost(0) }
    }

    /// The number of outstanding tasks. The counter is consistent, as every
    /// counter is.
    pub fn outstanding(&self) -> (n: usize)
        ensures
            n == self@.outstanding,
            consistent(self@),
    {
        proof {
            use_type_invariant(self);
        }
        self.outstanding
    }

    /// Whether a scope is open.
    pub fn in_scope(&self) -> (open: bool)
        ensures
            open == self@.in_scope,
    {
        self.in_scope
    }

    /// Whether nothing is outstanding, so that a waiting scope may return.
    pub fn is_drained(&self) -> (drained: bool)
        ensures
            drained <==> self@.outstanding == 0,
    {
        self.outstanding == 0
    }

    /// Whether one more task can be registered without the count leaving
    /// its range.
    pub fn has_room(&self) -> (room: bool)
        ensures
            room <==> self@.outstanding < usize::MAX,
    {
        self.outstanding < usize::MAX
    }

    /// Enters a scope.
    pub fn enter_scope(&mut self)
        requires
            enabled(old(self)@, PoolEvent::ScopeEntered),
        ensures
            final(self)@ == after(old(self)@, PoolEvent::ScopeEntered),
    {
        proof {
            use_type_invariant(&*self);
        }
        *self = TaskCounter {
            outstanding: self.outstanding,
            in_scope: true,
            registered: self.registered,
            done: self.done,
        };
    }

    /// Registers a task. The scope calls this before it queues the task, so
    /// that no worker can report the task first.
    pub fn register(&mut self)
        requires
            enabled(old(self)@, PoolEvent::TaskRegistered),
            old(self)@.outstanding < usize::MAX,
        ensures
            final(self)@ == after(old(self)@, PoolEvent::TaskRegistered),
    {
        proof {
            use_type_invariant(&*self);
        }
        *self = TaskCounter {
            outstanding: self.outstanding + 1,
            in_scope: self.in_scope,
            registered: Ghost(self.registered@ + 1),
            done: self.done,
        };
    }

    /// Reports a task done. A worker calls this when the task has returned,
    /// on whatever path. Returns whether the counter is drained, in which
    /// case the waiting scope is to be woken.
    pub fn report_done(&mut self) -> (drained: bool)
        requires
            enabled(old(self)@, PoolEvent::TaskDone),
        ensures
            final(self)@ == after(old(self)@, PoolEvent::TaskDone),
            drained <==> final(self)@.outstanding == 0,
    {
        proof {
            use_type_invariant(&*self);
        }
        *self = TaskCounter {
            outstanding: self.outstanding - 1,
            in_scope: self.in_scope,
            registered: self.registered,
            done: Ghost(self.done@ + 1),
        };
        self.outstanding == 0
    }

    /// Leaves the scope. The counter is then what it was when the scope was
    /// entered, and every task ever registered has been reported done.
    pub fn leave_scope(&mut self)
        requires
            enabled(old(self)@, PoolEvent::ScopeReturned),
        ensures
            final(self)@ == after(old(self)@, PoolEvent::ScopeReturned),
            final(self)@.outstanding == final(self)@.at_entry,
            final(self)@.done == final(self)@.registered,
    {
        proof {
            use_type_invariant(&*self);
        }
        *self = TaskCounter {
            outstanding: self.outstanding,
            in_scope: false,
            registered: self.registered,
            done: self.done,
        };
    }
}

} // verus!
