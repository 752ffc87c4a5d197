//! The rollover scheduler's decisions.
//!
//! A tick of the scheduler has three steps. It asks for the rows to
//! persist: one for each member whose counts differ from the ones last
//! persisted. Its caller writes them, and reports each row that was
//! written. It ends the tick with the current day: where the day has moved
//! on and every member's counts are persisted, the counters roll over.
//! Rows that could not be written are asked for again at the next tick,
//! and hold the rollover back until they are written.

use crate::app_model::{pending_upto, Context};
use crate::clock::{day_transition, transition_between, DayTransition, Timestamp};
use crate::counter_store::{admitted, CounterEntry, CounterStore};
use crate::statistics_model::Statistics;
use vstd::prelude::*;

verus! {

/// How a tick ended.
#[derive(Clone, Copy, Debug, PartialEq, Eq, Structural)]
pub enum TickOutcome {
    /// The day is the one of the previous tick.
    SameDay,
    /// A new day began: counters and dedup cache are empty, and the
    /// baseline is due to be computed from the day that ended.
    RolledOver,
    /// A new day began, but counts of the day that ended are not yet
    /// persisted: nothing was reset.
    RolloverDeferred,
    /// The clock reports a day before the one of the previous tick:
    /// nothing was reset.
    ClockAnomaly,
}

/// What the scheduler keeps between ticks: the counts as last persisted,
/// and the day under which it persists.
pub struct Scheduler {
    flushed: CounterStore,
    today: Timestamp,
}

impl Scheduler {
    /// The counts as last persisted.
    pub closed spec fn flushed(&self) -> CounterStore {
        self.flushed
    }

    /// The day under which rows are persisted.
    pub closed spec fn today(&self) -> Timestamp {
        self.today
    }

    /// The scheduler is well formed: no persisted count is negative.
    pub open spec fn wf(&self) -> bool {
        self.flushed().wf()
    }

    /// Every member's counts are persisted.
    pub open spec fn nothing_pending(&self, context: &Context) -> bool {
        forall|i: int|
            0 <= i < context.members().len() ==> !context.counters().differs_from(
                &self.flushed(),
                (#[trigger] context.members()[i]).id,
            )
    }

    /// How a tick on the day `today` ends.
    pub open spec fn outcome_of(&self, context: &Context, today: Timestamp) -> TickOutcome {
        match transition_between(self.today() as int, today as int) {
            DayTransition::SameDay => TickOutcome::SameDay,
            DayTransition::ClockAnomaly => TickOutcome::ClockAnomaly,
            DayTransition::Rollover => if self.nothing_pending(context) {
                TickOutcome::RolledOver
            } else {
                TickOutcome::RolloverDeferred
            },
        }
    }

    /// A scheduler that starts on the day `today` with nothing persisted.
    pub fn new(today: Timestamp) -> (scheduler: Scheduler)
        ensures
            scheduler.wf(),
            scheduler.today() == today,
            scheduler.flushed().unique_visitors() == Map::<i64, CounterEntry>::empty(),
            scheduler.flushed().referrers() == Map::<i64, CounterEntry>::empty(),
    {
        Scheduler { flushed: CounterStore::new(), today }
    }

    /// The day under which rows are persisted.
    pub fn day(&self) -> (today: Timestamp)
        ensures
            today == self.today(),
    {
        self.today
    }

    /// The rows to persist at this tick: for each member whose counts
    /// differ from the ones last persisted, its counts under the
    /// scheduler's day.
    pub fn plan_flush(&self, context: &Context, now: Timestamp) -> (rows: Vec<Statistics>)
        ensures
            rows@ == pending_upto(
                context.members(),
                context.members().len() as int,
                context.counters(),
                self.flushed(),
                self.today(),
                now,
            ),
    {
        context.pending_records(&self.flushed, self.today, now)
    }

    /// Notes that `row` was written: its counts are now the persisted
    /// counts of its member.
    pub fn mark_flushed(&mut self, row: &Statistics)
        requires
            old(self).wf(),
        ensures
            final(self).wf(),
            final(self).today() == old(self).today(),
            final(self).flushed().unique_visitors() == old(self).flushed().unique_visitors().insert(
                row.membership_id,
                CounterEntry {
                    count: admitted(row.unique_visitor),
                    last_event_at: row.updated_at,
                },
            ),
            final(self).flushed().referrers() == old(self).flushed().referrers().insert(
                row.membership_id,
                CounterEntry {
                    count: admitted(row.referrer),
                    last_event_at: row.latest_referrer_at,
                },
            ),
    {
        self.flushed.put(*row);
    }

    /// Tells whether every member's counts are persisted.
    pub fn is_flushed(&self, context: &Context) -> (complete: bool)
        ensures
            complete == self.nothing_pending(context),
    {
        let directory = context.directory();
        let counters = context.counter_store();
        let mut n: usize = 0;
        while n < directory.len()
            invariant
                n <= directory@.len(),
                directory@ == context.members(),
                *counters == context.counters(),
                forall|i: int|
                    0 <= i < n ==> !context.counters().differs_from(
                        &self.flushed(),
                        (#[trigger] context.members()[i]).id,
                    ),
            decreases directory@.len() - n,
        {
            if counters.changed(&self.flushed, directory.member(n).id) {
                return false;
            }
            n = n + 1;
        }
        true
    }

    /// Ends a tick on the day `today`.
    ///
    /// Where the day is later than the scheduler's and every member's
    /// counts are persisted, the engine rolls over: its counts are zero,
    /// its dedup cache is empty, nothing counts as persisted, and the
    /// scheduler's day is `today`. In every other case nothing changes.
    pub fn end_tick(&mut self, context: &mut Context, today: Timestamp) -> (outcome: TickOutcome)
        requires
            old(self).wf(),
            old(context).wf(),
        ensures
            final(self).wf(),
            final(context).wf(),
            final(context).same_setting(old(context)),
            outcome == old(self).outcome_of(old(context), today),
            outcome == TickOutcome::RolledOver ==> {
                &&& final(self).today() == today
                &&& final(self).flushed().unique_visitors() == Map::<i64, CounterEntry>::empty()
                &&& final(self).flushed().referrers() == Map::<i64, CounterEntry>::empty()
                &&& final(context).counters().unique_visitors() == Map::<
                    i64,
                    CounterEntry,
                >::empty()
                &&& final(context).counters().referrers() == Map::<i64, CounterEntry>::empty()
                &&& forall|id: i64|
                    final(context).counters().unique_visitor_count(id) == 0 && final(context).counters().referrer_count(id) == 0
                &&& final(context).seen() == Set::<Seq<char>>::empty()
            },
            outcome != TickOutcome::RolledOver ==> {
                &&& final(self).today() == old(self).today()
                &&& final(self).flushed() == old(self).flushed()
                &&& final(context).counters() == old(context).counters()
                &&& final(context).seen() == old(context).seen()
            },
    {
        match day_transition(self.today, today) {
            DayTransition::SameDay => TickOutcome::SameDay,
            DayTransition::ClockAnomaly => TickOutcome::ClockAnomaly,
            DayTransition::Rollover => {
                if self.is_flushed(context) {
                    context.rollover();
                    self.flushed.reset_all();
                    self.today = today;
                    TickOutcome::RolledOver
                } else {
                    TickOutcome::RolloverDeferred
                }
            },
        }
    }
}

} // verus!
