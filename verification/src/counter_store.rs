//! The counter store: per member, the unique visitors and the referrers
//! counted today, each with the instant of its last event.
//!
//! A member without an entry has the count zero. Counts never fall below
//! zero, and within a day they never decrease.

use crate::clock::Timestamp;
use crate::statistics_model::Statistics;
use std::collections::HashMap;
use vstd::prelude::*;

verus! {

broadcast use vstd::std_specs::hash::group_hash_axioms;

/// A count and the instant of the last event that it counted.
#[derive(Clone, Copy, Debug, PartialEq, Eq, Structural)]
pub struct CounterEntry {
    pub count: i64,
    pub last_event_at: Timestamp,
}

/// The count that `counters` hold for `id`: zero without an entry.
pub open spec fn count_in(counters: Map<i64, CounterEntry>, id: i64) -> int {
    if counters.contains_key(id) {
        counters[id].count as int
    } else {
        0
    }
}

/// The count that follows `count`: one more, held at the largest count
/// that an entry can hold.
pub open spec fn next_count(count: int) -> int {
    if count < i64::MAX {
        count + 1
    } else {
        count
    }
}

/// `counters` after one more event for `id` at the instant `now`.
pub open spec fn bumped(counters: Map<i64, CounterEntry>, id: i64, now: Timestamp) -> Map<
    i64,
    CounterEntry,
> {
    counters.insert(
        id,
        CounterEntry { count: next_count(count_in(counters, id)) as i64, last_event_at: now },
    )
}

/// `counters` after one more event for `id` at each of the instants
/// `times`, in their order.
pub open spec fn bumped_times(counters: Map<i64, CounterEntry>, id: i64, times: Seq<Timestamp>) -> Map<
    i64,
    CounterEntry,
>
    decreases times.len(),
{
    if times.len() == 0 {
        counters
    } else {
        bumped(bumped_times(counters, id, times.drop_last()), id, times.last())
    }
}

/// Events that each count add up: after `n` events for a member, one
/// after the other, its count is higher by exactly `n`, as long as the
/// count stays within the range of an entry. The other members' counts
/// stay as they are.
pub proof fn lemma_events_add_up(counters: Map<i64, CounterEntry>, id: i64, times: Seq<Timestamp>)
    requires
        count_in(counters, id) + times.len() <= i64::MAX,
        non_negative(counters),
    ensures
        count_in(bumped_times(counters, id, times), id) == count_in(counters, id) + times.len(),
        non_negative(bumped_times(counters, id, times)),
        forall|other: i64|
            other != id ==> count_in(bumped_times(counters, id, times), other) == count_in(
                counters,
                other,
            ),
    decreases times.len(),
{
    if times.len() > 0 {
        lemma_events_add_up(counters, id, times.drop_last());
    }
}

/// One more event never lowers a count.
pub proof fn lemma_bump_never_lowers(
    counters: Map<i64, CounterEntry>,
    id: i64,
    now: Timestamp,
    other: i64,
)
    requires
        non_negative(counters),
    ensures
        count_in(bumped(counters, id, now), other) >= count_in(counters, other),
        non_negative(bumped(counters, id, now)),
{
}

/// No entry of `counters` is negative.
pub open spec fn non_negative(counters: Map<i64, CounterEntry>) -> bool {
    forall|id: i64| #[trigger] counters.contains_key(id) ==> counters[id].count >= 0
}

/// A count as the store takes it: a negative one counts as zero.
pub open spec fn admitted(count: i64) -> i64 {
    if count < 0 {
        0
    } else {
        count
    }
}

/// The unique-visitor entries that the first `n` rows give: each row's
/// count and update instant under its member, a later row in place of an
/// earlier one of that member.
pub open spec fn seeded_unique_visitors(rows: Seq<Statistics>, n: int) -> Map<i64, CounterEntry>
    decreases n,
{
    if n <= 0 {
        Map::<i64, CounterEntry>::empty()
    } else {
        seeded_unique_visitors(rows, n - 1).insert(
            rows[n - 1].membership_id,
            CounterEntry {
                count: admitted(rows[n - 1].unique_visitor),
                last_event_at: rows[n - 1].updated_at,
            },
        )
    }
}

/// The referrer entries that the first `n` rows give.
pub open spec fn seeded_referrers(rows: Seq<Statistics>, n: int) -> Map<i64, CounterEntry>
    decreases n,
{
    if n <= 0 {
        Map::<i64, CounterEntry>::empty()
    } else {
        seeded_referrers(rows, n - 1).insert(
            rows[n - 1].membership_id,
            CounterEntry {
                count: admitted(rows[n - 1].referrer),
                last_event_at: rows[n - 1].latest_referrer_at,
            },
        )
    }
}

/// What the first `n` rows give does not depend on the rows behind them.
proof fn lemma_seeded_prefix(rows: Seq<Statistics>, longer: Seq<Statistics>, n: int)
    requires
        0 <= n <= rows.len() <= longer.len(),
        forall|i: int| 0 <= i < rows.len() ==> rows[i] == longer[i],
    ensures
        seeded_unique_visitors(longer, n) == seeded_unique_visitors(rows, n),
        seeded_referrers(longer, n) == seeded_referrers(rows, n),
    decreases n,
{
    if n > 0 {
        lemma_seeded_prefix(rows, longer, n - 1);
    }
}

/// The store holds one entry per member and dimension, and the row taken
/// last stands: two rows of one member, taken one after the other, leave
/// what the second alone would have left.
pub proof fn lemma_later_row_stands(rows: Seq<Statistics>, first: Statistics, second: Statistics)
    requires
        first.membership_id == second.membership_id,
    ensures
        seeded_unique_visitors(rows.push(first).push(second), rows.len() as int + 2)
            == seeded_unique_visitors(rows.push(second), rows.len() as int + 1),
        seeded_referrers(rows.push(first).push(second), rows.len() as int + 2) == seeded_referrers(
            rows.push(second),
            rows.len() as int + 1,
        ),
{
    let n = rows.len() as int;
    let both = rows.push(first).push(second);
    let single = rows.push(second);
    lemma_seeded_prefix(rows, both, n);
    lemma_seeded_prefix(rows, single, n);
    assert(both[n] == first && both[n + 1] == second && single[n] == second);
    let visitors = seeded_unique_visitors(rows, n);
    let referrers = seeded_referrers(rows, n);
    assert(seeded_unique_visitors(both, n + 1) == visitors.insert(
        first.membership_id,
        CounterEntry { count: admitted(first.unique_visitor), last_event_at: first.updated_at },
    ));
    assert(seeded_referrers(both, n + 1) == referrers.insert(
        first.membership_id,
        CounterEntry { count: admitted(first.referrer), last_event_at: first.latest_referrer_at },
    ));
    assert(seeded_unique_visitors(both, n + 2) =~= seeded_unique_visitors(single, n + 1));
    assert(seeded_referrers(both, n + 2) =~= seeded_referrers(single, n + 1));
}

/// Today's counters of all members.
pub struct CounterStore {
    unique_visitor: HashMap<i64, CounterEntry>,
    referrer: HashMap<i64, CounterEntry>,
}

impl CounterStore {
    /// The unique-visitor entries.
    pub closed spec fn unique_visitors(&self) -> Map<i64, CounterEntry> {
        self.unique_visitor@
    }

    /// The referrer entries.
    pub closed spec fn referrers(&self) -> Map<i64, CounterEntry> {
        self.referrer@
    }

    /// The store is well formed: no count is negative.
    pub open spec fn wf(&self) -> bool {
        non_negative(self.unique_visitors()) && non_negative(self.referrers())
    }

    /// Unique visitors counted for `id`.
    pub open spec fn unique_visitor_count(&self, id: i64) -> int {
        count_in(self.unique_visitors(), id)
    }

    /// Referrers counted for `id`.
    pub open spec fn referrer_count(&self, id: i64) -> int {
        count_in(self.referrers(), id)
    }

    /// The counts of `id` differ between the two stores.
    pub open spec fn differs_from(&self, other: &CounterStore, id: i64) -> bool {
        self.unique_visitor_count(id) != other.unique_visitor_count(id) || self.referrer_count(id)
            != other.referrer_count(id)
    }

    /// A store without entries.
    pub fn new() -> (store: CounterStore)
        ensures
            store.wf(),
            store.unique_visitors() == Map::<i64, CounterEntry>::empty(),
            store.referrers() == Map::<i64, CounterEntry>::empty(),
    {
        CounterStore { unique_visitor: HashMap::new(), referrer: HashMap::new() }
    }

    /// A store seeded with today's rows as they were last persisted.
    pub fn from_rows(rows: &Vec<Statistics>) -> (store: CounterStore)
        ensures
            store.wf(),
            store.unique_visitors() == seeded_unique_visitors(rows@, rows.len() as int),
            store.referrers() == seeded_referrers(rows@, rows.len() as int),
    {
        let mut store = CounterStore::new();
        let mut n: usize = 0;
        while n < rows.len()
            invariant
                n <= rows.len(),
                store.wf(),
                store.unique_visitors() == seeded_unique_visitors(rows@, n as int),
                store.referrers() == seeded_referrers(rows@, n as int),
            decreases rows.len() - n,
        {
            let row: Statistics = rows[n];
            store.put(row);
            n = n + 1;
        }
        store
    }

    /// Takes the counts of `row` as the counts of its member.
    pub fn put(&mut self, row: Statistics)
        requires
            old(self).wf(),
        ensures
            final(self).wf(),
            final(self).unique_visitors() == old(self).unique_visitors().insert(
                row.membership_id,
                CounterEntry {
                    count: admitted(row.unique_visitor),
                    last_event_at: row.updated_at,
                },
            ),
            final(self).referrers() == old(self).referrers().insert(
                row.membership_id,
                CounterEntry {
                    count: admitted(row.referrer),
                    last_event_at: row.latest_referrer_at,
                },
            ),
    {
        let unique_visitor: i64 = if row.unique_visitor < 0 {
            0
        } else {
            row.unique_visitor
        };
        let referrer: i64 = if row.referrer < 0 {
            0
        } else {
            row.referrer
        };
        self.unique_visitor.insert(
            row.membership_id,
            CounterEntry { count: unique_visitor, last_event_at: row.updated_at },
        );
        self.referrer.insert(
            row.membership_id,
            CounterEntry { count: referrer, last_event_at: row.latest_referrer_at },
        );
    }

    /// The unique-visitor entry of `id`; without one, a count of zero as
    /// of `now`.
    pub fn unique_visitor(&self, id: i64, now: Timestamp) -> (entry: CounterEntry)
        ensures
            entry == (if self.unique_visitors().contains_key(id) {
                self.unique_visitors()[id]
            } else {
                CounterEntry { count: 0, last_event_at: now }
            }),
            entry.count == self.unique_visitor_count(id),
    {
        match self.unique_visitor.get(&id) {
            Some(entry) => *entry,
            None => CounterEntry { count: 0, last_event_at: now },
        }
    }

    /// The referrer entry of `id`; without one, a count of zero as of
    /// `now`.
    pub fn referrer(&self, id: i64, now: Timestamp) -> (entry: CounterEntry)
        ensures
            entry == (if self.referrers().contains_key(id) {
                self.referrers()[id]
            } else {
                CounterEntry { count: 0, last_event_at: now }
            }),
            entry.count == self.referrer_count(id),
    {
        match self.referrer.get(&id) {
            Some(entry) => *entry,
            None => CounterEntry { count: 0, last_event_at: now },
        }
    }

    /// Counts one more unique visitor for `id` at the instant `now` and
    /// returns the member's two counts. The referrers stay as they are.
    pub fn record_unique_visitor(&mut self, id: i64, now: Timestamp) -> (counts: (i64, i64))
        requires
            old(self).wf(),
        ensures
            final(self).wf(),
            final(self).unique_visitors() == bumped(old(self).unique_visitors(), id, now),
            final(self).referrers() == old(self).referrers(),
            counts.0 == final(self).unique_visitor_count(id),
            counts.0 == next_count(old(self).unique_visitor_count(id)),
            counts.1 == final(self).referrer_count(id),
            forall|other: i64|
                final(self).unique_visitor_count(other) >= old(self).unique_visitor_count(other),
    {
        let entry = self.unique_visitor(id, now);
        let count: i64 = if entry.count < i64::MAX {
            entry.count + 1
        } else {
            entry.count
        };
        self.unique_visitor.insert(id, CounterEntry { count, last_event_at: now });
        let referrer = self.referrer(id, now);
        (count, referrer.count)
    }

    /// Counts one more referrer for `id` at the instant `now` and returns
    /// the member's two counts. The unique visitors stay as they are.
    pub fn record_referrer(&mut self, id: i64, now: Timestamp) -> (counts: (i64, i64))
        requires
            old(self).wf(),
        ensures
            final(self).wf(),
            final(self).referrers() == bumped(old(self).referrers(), id, now),
            final(self).unique_visitors() == old(self).unique_visitors(),
            counts.0 == final(self).unique_visitor_count(id),
            counts.1 == final(self).referrer_count(id),
            counts.1 == next_count(old(self).referrer_count(id)),
            forall|other: i64|
                final(self).referrer_count(other) >= old(self).referrer_count(other),
    {
        let entry = self.referrer(id, now);
        let count: i64 = if entry.count < i64::MAX {
            entry.count + 1
        } else {
            entry.count
        };
        self.referrer.insert(id, CounterEntry { count, last_event_at: now });
        let unique_visitor = self.unique_visitor(id, now);
        (unique_visitor.count, count)
    }

    /// Tells whether the counts of `id` differ from those in `previous`.
    pub fn changed(&self, previous: &CounterStore, id: i64) -> (differs: bool)
        ensures
            differs == self.differs_from(previous, id),
    {
        let now: Timestamp = 0;
        self.unique_visitor(id, now).count != previous.unique_visitor(id, now).count
            || self.referrer(id, now).count != previous.referrer(id, now).count
    }

    /// Those of the first `n` of `ids`, in their order, whose counts differ
    /// from those in `previous`.
    pub open spec fn changed_among(&self, previous: &CounterStore, ids: Seq<i64>, n: int) -> Seq<
        i64,
    >
        decreases n,
    {
        if n <= 0 {
            Seq::<i64>::empty()
        } else {
            let earlier = self.changed_among(previous, ids, n - 1);
            if self.differs_from(previous, ids[n - 1]) {
                earlier.push(ids[n - 1])
            } else {
                earlier
            }
        }
    }

    /// Lists, in the order of `ids`, the members whose counts differ from
    /// those in `previous`.
    pub fn snapshot_changed(&self, previous: &CounterStore, ids: &Vec<i64>) -> (changed: Vec<i64>)
        ensures
            changed@ == self.changed_among(previous, ids@, ids.len() as int),
    {
        let mut changed: Vec<i64> = Vec::new();
        let mut n: usize = 0;
        while n < ids.len()
            invariant
                n <= ids.len(),
                changed@ == self.changed_among(previous, ids@, n as int),
            decreases ids.len() - n,
        {
            let id: i64 = ids[n];
            if self.changed(previous, id) {
                changed.push(id);
            }
            n = n + 1;
        }
        changed
    }

    /// Sets every count to zero.
    pub fn reset_all(&mut self)
        ensures
            final(self).wf(),
            final(self).unique_visitors() == Map::<i64, CounterEntry>::empty(),
            final(self).referrers() == Map::<i64, CounterEntry>::empty(),
            forall|id: i64|
                final(self).unique_visitor_count(id) == 0 && final(self).referrer_count(id) == 0,
    {
        self.unique_visitor.clear();
        self.referrer.clear();
    }
}

} // verus!
