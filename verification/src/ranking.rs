//! Ranking of members over a window of days.
//!
//! A ranking holds one entry per member that has a row in the window. The
//! entry sums the member's counters over the window, carries the earliest
//! day bucket and the latest update instants among those rows, and the
//! entries stand in descending order of their referrer sums; members with
//! equal sums stand in ascending order of their identifiers.

use crate::clock::Timestamp;
use crate::statistics_model::Statistics;
use vstd::prelude::*;

verus! {

/// Why a ranking could not be computed.
#[derive(Clone, Copy, Debug, PartialEq, Eq, Structural)]
pub enum RankError {
    /// The counters of some member, summed over the window, leave the range
    /// of a row's counters.
    SumOutOfRange,
}

/// The row belongs to the half-open window `[start, end)`.
pub open spec fn in_window(row: Statistics, start: int, end: int) -> bool {
    start <= row.created_at < end
}

/// The row belongs to the window and to the member `id`.
pub open spec fn counts_for(row: Statistics, id: i64, start: int, end: int) -> bool {
    row.membership_id == id && in_window(row, start, end)
}

/// Unique visitors of member `id` over the window, among the first `n` rows.
pub open spec fn unique_visitor_upto(
    rows: Seq<Statistics>,
    n: int,
    id: i64,
    start: int,
    end: int,
) -> int
    decreases n,
{
    if n <= 0 {
        0
    } else {
        unique_visitor_upto(rows, n - 1, id, start, end) + (if counts_for(
            rows[n - 1],
            id,
            start,
            end,
        ) {
            rows[n - 1].unique_visitor as int
        } else {
            0int
        })
    }
}

/// Referrers of member `id` over the window, among the first `n` rows.
pub open spec fn referrer_upto(rows: Seq<Statistics>, n: int, id: i64, start: int, end: int) -> int
    decreases n,
{
    if n <= 0 {
        0
    } else {
        referrer_upto(rows, n - 1, id, start, end) + (if counts_for(rows[n - 1], id, start, end) {
            rows[n - 1].referrer as int
        } else {
            0int
        })
    }
}

/// Unique visitors of member `id` summed over the window.
pub open spec fn window_unique_visitor(rows: Seq<Statistics>, id: i64, start: int, end: int) -> int {
    unique_visitor_upto(rows, rows.len() as int, id, start, end)
}

/// Referrers of member `id` summed over the window.
pub open spec fn window_referrer(rows: Seq<Statistics>, id: i64, start: int, end: int) -> int {
    referrer_upto(rows, rows.len() as int, id, start, end)
}

/// Member `id` has a row in the window among the first `n` rows.
pub open spec fn present_upto(rows: Seq<Statistics>, n: int, id: i64, start: int, end: int) -> bool {
    exists|j: int| 0 <= j < n && counts_for(#[trigger] rows[j], id, start, end)
}

/// The earlier of an instant found so far, if any, and `t`.
pub open spec fn earlier_of(found: Option<int>, t: int) -> Option<int> {
    match found {
        Some(least) if least <= t => Some(least),
        _ => Some(t),
    }
}

/// The later of an instant found so far, if any, and `t`.
pub open spec fn later_of(found: Option<int>, t: int) -> Option<int> {
    match found {
        Some(greatest) if greatest >= t => Some(greatest),
        _ => Some(t),
    }
}

/// The earliest day bucket among the rows of member `id` in the window,
/// among the first `n` rows; `None` where the member has no row there.
pub open spec fn earliest_created_upto(
    rows: Seq<Statistics>,
    n: int,
    id: i64,
    start: int,
    end: int,
) -> Option<int>
    decreases n,
{
    if n <= 0 {
        None
    } else {
        let found = earliest_created_upto(rows, n - 1, id, start, end);
        if counts_for(rows[n - 1], id, start, end) {
            earlier_of(found, rows[n - 1].created_at as int)
        } else {
            found
        }
    }
}

/// The latest update instant among the rows of member `id` in the window,
/// among the first `n` rows.
pub open spec fn latest_updated_upto(
    rows: Seq<Statistics>,
    n: int,
    id: i64,
    start: int,
    end: int,
) -> Option<int>
    decreases n,
{
    if n <= 0 {
        None
    } else {
        let found = latest_updated_upto(rows, n - 1, id, start, end);
        if counts_for(rows[n - 1], id, start, end) {
            later_of(found, rows[n - 1].updated_at as int)
        } else {
            found
        }
    }
}

/// The latest referrer instant among the rows of member `id` in the
/// window, among the first `n` rows.
pub open spec fn latest_referrer_upto(
    rows: Seq<Statistics>,
    n: int,
    id: i64,
    start: int,
    end: int,
) -> Option<int>
    decreases n,
{
    if n <= 0 {
        None
    } else {
        let found = latest_referrer_upto(rows, n - 1, id, start, end);
        if counts_for(rows[n - 1], id, start, end) {
            later_of(found, rows[n - 1].latest_referrer_at as int)
        } else {
            found
        }
    }
}

/// The earliest day bucket among the member's rows in the window.
pub open spec fn window_created_at(rows: Seq<Statistics>, id: i64, start: int, end: int) -> Option<
    int,
> {
    earliest_created_upto(rows, rows.len() as int, id, start, end)
}

/// The latest update instant among the member's rows in the window.
pub open spec fn window_updated_at(rows: Seq<Statistics>, id: i64, start: int, end: int) -> Option<
    int,
> {
    latest_updated_upto(rows, rows.len() as int, id, start, end)
}

/// The latest referrer instant among the member's rows in the window.
pub open spec fn window_latest_referrer_at(
    rows: Seq<Statistics>,
    id: i64,
    start: int,
    end: int,
) -> Option<int> {
    latest_referrer_upto(rows, rows.len() as int, id, start, end)
}

/// The entry is the aggregate of its member's rows in the window: the
/// member has rows there, the entry sums their counters, and it carries
/// their earliest day bucket and their latest update instants.
pub open spec fn aggregates(rows: Seq<Statistics>, start: int, end: int, entry: Statistics) -> bool {
    let id = entry.membership_id;
    &&& entry.id == 0
    &&& entry.unique_visitor == window_unique_visitor(rows, id, start, end)
    &&& entry.referrer == window_referrer(rows, id, start, end)
    &&& window_created_at(rows, id, start, end) == Some(entry.created_at as int)
    &&& window_updated_at(rows, id, start, end) == Some(entry.updated_at as int)
    &&& window_latest_referrer_at(rows, id, start, end) == Some(entry.latest_referrer_at as int)
}

/// The order of a ranking: the larger referrer sum first, and of two equal
/// sums the smaller member identifier first.
pub open spec fn ranks_before(a: Statistics, b: Statistics) -> bool {
    a.referrer > b.referrer || (a.referrer == b.referrer && a.membership_id < b.membership_id)
}

/// `ranking` is the ranking of `rows` over the window `[start, end)`.
pub open spec fn is_ranking(
    rows: Seq<Statistics>,
    start: int,
    end: int,
    ranking: Seq<Statistics>,
) -> bool {
    &&& forall|i: int|
        0 <= i < ranking.len() ==> aggregates(rows, start, end, #[trigger] ranking[i])
    &&& forall|j: int|
        0 <= j < rows.len() && in_window(#[trigger] rows[j], start, end) ==> exists|i: int|
            0 <= i < ranking.len() && (#[trigger] ranking[i]).membership_id
                == rows[j].membership_id
    &&& forall|i: int, k: int|
        0 <= i < k < ranking.len() ==> ranks_before(#[trigger] ranking[i], #[trigger] ranking[k])
}

/// The value fits a row's counter.
pub open spec fn fits_counter(v: int) -> bool {
    i64::MIN <= v <= i64::MAX
}

/// Every member's sums over the window fit a row's counters.
pub open spec fn sums_fit(rows: Seq<Statistics>, start: int, end: int) -> bool {
    forall|j: int|
        0 <= j < rows.len() && in_window(#[trigger] rows[j], start, end) ==> fits_counter(
            window_unique_visitor(rows, rows[j].membership_id, start, end),
        ) && fits_counter(window_referrer(rows, rows[j].membership_id, start, end))
}

/// Running aggregate of one member while the rows are walked.
#[derive(Clone, Copy)]
struct Tally {
    id: i64,
    unique_visitor: i128,
    referrer: i128,
    created_at: i64,
    updated_at: i64,
    latest_referrer_at: i64,
}

/// Largest magnitude of a row's counter.
spec fn counter_span() -> int {
    0x8000_0000_0000_0000
}

/// The tally is the aggregate of its member's rows among the first `n`.
spec fn tally_holds(rows: Seq<Statistics>, n: int, start: int, end: int, t: Tally) -> bool {
    &&& t.unique_visitor == unique_visitor_upto(rows, n, t.id, start, end)
    &&& t.referrer == referrer_upto(rows, n, t.id, start, end)
    &&& -n * counter_span() <= t.unique_visitor <= n * counter_span()
    &&& -n * counter_span() <= t.referrer <= n * counter_span()
    &&& earliest_created_upto(rows, n, t.id, start, end) == Some(t.created_at as int)
    &&& latest_updated_upto(rows, n, t.id, start, end) == Some(t.updated_at as int)
    &&& latest_referrer_upto(rows, n, t.id, start, end) == Some(t.latest_referrer_at as int)
}

/// The tallies are the aggregates of the first `n` rows: one per member
/// with a row in the window.
#[verifier::opaque]
spec fn tallies_hold(rows: Seq<Statistics>, n: int, start: int, end: int, tallies: Seq<Tally>) -> bool {
    &&& forall|g: int|
        0 <= g < tallies.len() ==> tally_holds(rows, n, start, end, #[trigger] tallies[g])
    &&& forall|g: int, h: int|
        0 <= g < h < tallies.len() ==> (#[trigger] tallies[g]).id != (#[trigger] tallies[h]).id
    &&& forall|j: int|
        0 <= j < n && in_window(#[trigger] rows[j], start, end) ==> exists|g: int|
            0 <= g < tallies.len() && (#[trigger] tallies[g]).id == rows[j].membership_id
}

spec fn entry_of(t: Tally) -> Statistics {
    Statistics {
        id: 0,
        created_at: t.created_at,
        updated_at: t.updated_at,
        membership_id: t.id,
        unique_visitor: t.unique_visitor as i64,
        referrer: t.referrer as i64,
        latest_referrer_at: t.latest_referrer_at,
    }
}

spec fn absorbed(t: Tally, row: Statistics) -> Tally {
    Tally {
        id: t.id,
        unique_visitor: (t.unique_visitor + row.unique_visitor) as i128,
        referrer: (t.referrer + row.referrer) as i128,
        created_at: if row.created_at < t.created_at {
            row.created_at
        } else {
            t.created_at
        },
        updated_at: if row.updated_at > t.updated_at {
            row.updated_at
        } else {
            t.updated_at
        },
        latest_referrer_at: if row.latest_referrer_at > t.latest_referrer_at {
            row.latest_referrer_at
        } else {
            t.latest_referrer_at
        },
    }
}

spec fn opened(row: Statistics) -> Tally {
    Tally {
        id: row.membership_id,
        unique_visitor: row.unique_visitor as i128,
        referrer: row.referrer as i128,
        created_at: row.created_at,
        updated_at: row.updated_at,
        latest_referrer_at: row.latest_referrer_at,
    }
}

/// A member without a row in the window has empty sums and no instants.
proof fn lemma_absent(rows: Seq<Statistics>, n: int, id: i64, start: int, end: int)
    requires
        0 <= n <= rows.len(),
        forall|j: int| 0 <= j < n ==> !counts_for(#[trigger] rows[j], id, start, end),
    ensures
        unique_visitor_upto(rows, n, id, start, end) == 0,
        referrer_upto(rows, n, id, start, end) == 0,
        earliest_created_upto(rows, n, id, start, end) is None,
        latest_updated_upto(rows, n, id, start, end) is None,
        latest_referrer_upto(rows, n, id, start, end) is None,
    decreases n,
{
    if n > 0 {
        assert(!counts_for(rows[n - 1], id, start, end));
        lemma_absent(rows, n - 1, id, start, end);
    }
}

/// The earliest day bucket of a member is the bucket of one of its rows in
/// the window, and no row of it there has an earlier one; the member has
/// such a bucket exactly when it has a row in the window.
pub proof fn lemma_earliest_created(rows: Seq<Statistics>, n: int, id: i64, start: int, end: int)
    requires
        0 <= n <= rows.len(),
    ensures
        earliest_created_upto(rows, n, id, start, end) is Some <==> present_upto(
            rows,
            n,
            id,
            start,
            end,
        ),
        earliest_created_upto(rows, n, id, start, end) matches Some(t) ==> {
            &&& exists|j: int|
                0 <= j < n && counts_for(#[trigger] rows[j], id, start, end) && rows[j].created_at
                    == t
            &&& forall|j: int|
                0 <= j < n && counts_for(#[trigger] rows[j], id, start, end) ==> t
                    <= rows[j].created_at
        },
    decreases n,
{
    if n > 0 {
        lemma_earliest_created(rows, n - 1, id, start, end);
        let found = earliest_created_upto(rows, n - 1, id, start, end);
        let row = rows[n - 1];
        if counts_for(row, id, start, end) {
            assert(present_upto(rows, n, id, start, end));
            let t = earliest_created_upto(rows, n, id, start, end)->Some_0;
            if found is Some && found->Some_0 <= row.created_at {
                let j = choose|j: int|
                    0 <= j < n - 1 && counts_for(#[trigger] rows[j], id, start, end)
                        && rows[j].created_at == t;
                assert(0 <= j < n && counts_for(rows[j], id, start, end) && rows[j].created_at == t);
            } else {
                assert(0 <= n - 1 < n && counts_for(rows[n - 1], id, start, end) && rows[n
                    - 1].created_at == t);
            }
        } else {
            if found is Some {
                let t = found->Some_0;
                let j = choose|j: int|
                    0 <= j < n - 1 && counts_for(#[trigger] rows[j], id, start, end)
                        && rows[j].created_at == t;
                assert(0 <= j < n && counts_for(rows[j], id, start, end) && rows[j].created_at == t);
            }
            if present_upto(rows, n, id, start, end) {
                let j = choose|j: int| 0 <= j < n && counts_for(#[trigger] rows[j], id, start, end);
                assert(j < n - 1);
                assert(present_upto(rows, n - 1, id, start, end));
            }
        }
    }
}

/// The latest update instant of a member is that of one of its rows in
/// the window, and no row of it there has a later one.
pub proof fn lemma_latest_updated(rows: Seq<Statistics>, n: int, id: i64, start: int, end: int)
    requires
        0 <= n <= rows.len(),
    ensures
        latest_updated_upto(rows, n, id, start, end) is Some <==> present_upto(
            rows,
            n,
            id,
            start,
            end,
        ),
        latest_updated_upto(rows, n, id, start, end) matches Some(t) ==> {
            &&& exists|j: int|
                0 <= j < n && counts_for(#[trigger] rows[j], id, start, end) && rows[j].updated_at
                    == t
            &&& forall|j: int|
                0 <= j < n && counts_for(#[trigger] rows[j], id, start, end) ==> rows[j].updated_at
                    <= t
        },
    decreases n,
{
    if n > 0 {
        lemma_latest_updated(rows, n - 1, id, start, end);
        let found = latest_updated_upto(rows, n - 1, id, start, end);
        let row = rows[n - 1];
        if present_upto(rows, n, id, start, end) && !counts_for(row, id, start, end) {
            let j = choose|j: int| 0 <= j < n && counts_for(#[trigger] rows[j], id, start, end);
            assert(j < n - 1);
            assert(present_upto(rows, n - 1, id, start, end));
        }
        if counts_for(row, id, start, end) {
            assert(present_upto(rows, n, id, start, end));
            let t = latest_updated_upto(rows, n, id, start, end)->Some_0;
            if found is Some && found->Some_0 >= row.updated_at {
                let j = choose|j: int|
                    0 <= j < n - 1 && counts_for(#[trigger] rows[j], id, start, end)
                        && rows[j].updated_at == t;
                assert(0 <= j < n && counts_for(rows[j], id, start, end) && rows[j].updated_at == t);
            } else {
                assert(0 <= n - 1 < n && counts_for(rows[n - 1], id, start, end) && rows[n
                    - 1].updated_at == t);
            }
        } else if found is Some {
            let t = found->Some_0;
            let j = choose|j: int|
                0 <= j < n - 1 && counts_for(#[trigger] rows[j], id, start, end)
                    && rows[j].updated_at == t;
            assert(0 <= j < n && counts_for(rows[j], id, start, end) && rows[j].updated_at == t);
        }
    }
}

/// The latest referrer instant of a member is that of one of its rows in
/// the window, and no row of it there has a later one.
pub proof fn lemma_latest_referrer(rows: Seq<Statistics>, n: int, id: i64, start: int, end: int)
    requires
        0 <= n <= rows.len(),
    ensures
        latest_referrer_upto(rows, n, id, start, end) is Some <==> present_upto(
            rows,
            n,
            id,
            start,
            end,
        ),
        latest_referrer_upto(rows, n, id, start, end) matches Some(t) ==> {
            &&& exists|j: int|
                0 <= j < n && counts_for(#[trigger] rows[j], id, start, end)
                    && rows[j].latest_referrer_at == t
            &&& forall|j: int|
                0 <= j < n && counts_for(#[trigger] rows[j], id, start, end)
                    ==> rows[j].latest_referrer_at <= t
        },
    decreases n,
{
    if n > 0 {
        lemma_latest_referrer(rows, n - 1, id, start, end);
        let found = latest_referrer_upto(rows, n - 1, id, start, end);
        let row = rows[n - 1];
        if present_upto(rows, n, id, start, end) && !counts_for(row, id, start, end) {
            let j = choose|j: int| 0 <= j < n && counts_for(#[trigger] rows[j], id, start, end);
            assert(j < n - 1);
            assert(present_upto(rows, n - 1, id, start, end));
        }
        if counts_for(row, id, start, end) {
            assert(present_upto(rows, n, id, start, end));
            let t = latest_referrer_upto(rows, n, id, start, end)->Some_0;
            if found is Some && found->Some_0 >= row.latest_referrer_at {
                let j = choose|j: int|
                    0 <= j < n - 1 && counts_for(#[trigger] rows[j], id, start, end)
                        && rows[j].latest_referrer_at == t;
                assert(0 <= j < n && counts_for(rows[j], id, start, end)
                    && rows[j].latest_referrer_at == t);
            } else {
                assert(0 <= n - 1 < n && counts_for(rows[n - 1], id, start, end) && rows[n
                    - 1].latest_referrer_at == t);
            }
        } else if found is Some {
            let t = found->Some_0;
            let j = choose|j: int|
                0 <= j < n - 1 && counts_for(#[trigger] rows[j], id, start, end)
                    && rows[j].latest_referrer_at == t;
            assert(0 <= j < n && counts_for(rows[j], id, start, end) && rows[j].latest_referrer_at
                == t);
        }
    }
}

proof fn lemma_span_step(n: int)
    requires
        0 <= n < 0xffff_ffff_ffff_ffff,
    ensures
        (n + 1) * counter_span() == n * counter_span() + counter_span(),
        -(n + 1) * counter_span() == -n * counter_span() - counter_span(),
        (n + 1) * counter_span() <= 0x7fff_ffff_ffff_ffff_8000_0000_0000_0000,
        n * counter_span() >= 0,
{
    assert((n + 1) * counter_span() == n * counter_span() + counter_span()) by (nonlinear_arith);
    assert(-(n + 1) * counter_span() == -n * counter_span() - counter_span()) by (nonlinear_arith);
    assert((n + 1) * counter_span() <= 0xffff_ffff_ffff_ffff * counter_span()) by (nonlinear_arith)
        requires
            n + 1 <= 0xffff_ffff_ffff_ffff,
            counter_span() >= 0,
    ;
    assert(n * counter_span() >= 0) by (nonlinear_arith)
        requires
            n >= 0,
            counter_span() >= 0,
    ;
}

/// A tally of another member stays valid when one more row is walked.
proof fn lemma_tally_unaffected(rows: Seq<Statistics>, n: int, start: int, end: int, t: Tally)
    requires
        0 <= n < rows.len(),
        n < 0xffff_ffff_ffff_ffff,
        tally_holds(rows, n, start, end, t),
        !counts_for(rows[n], t.id, start, end),
    ensures
        tally_holds(rows, n + 1, start, end, t),
{
    lemma_span_step(n);
}

/// A tally that absorbs the next row of its member is valid for one more
/// row, and its sums stay within the accumulator's range.
proof fn lemma_tally_absorbs(rows: Seq<Statistics>, n: int, start: int, end: int, t: Tally)
    requires
        0 <= n < rows.len(),
        n < 0xffff_ffff_ffff_ffff,
        tally_holds(rows, n, start, end, t),
        counts_for(rows[n], t.id, start, end),
    ensures
        tally_holds(rows, n + 1, start, end, absorbed(t, rows[n])),
        i128::MIN <= t.unique_visitor + rows[n].unique_visitor <= i128::MAX,
        i128::MIN <= t.referrer + rows[n].referrer <= i128::MAX,
{
    lemma_span_step(n);
}

/// The first row of a member opens a valid tally.
proof fn lemma_tally_opens(rows: Seq<Statistics>, n: int, start: int, end: int)
    requires
        0 <= n < rows.len(),
        n < 0xffff_ffff_ffff_ffff,
        in_window(rows[n], start, end),
        forall|j: int|
            0 <= j < n ==> !counts_for(#[trigger] rows[j], rows[n].membership_id, start, end),
    ensures
        tally_holds(rows, n + 1, start, end, opened(rows[n])),
{
    lemma_absent(rows, n, rows[n].membership_id, start, end);
    lemma_span_step(n);
}

/// What a tally over all rows says of its member.
proof fn lemma_tally_entry(rows: Seq<Statistics>, start: int, end: int, t: Tally)
    requires
        tally_holds(rows, rows.len() as int, start, end, t),
    ensures
        t.unique_visitor == window_unique_visitor(rows, t.id, start, end),
        t.referrer == window_referrer(rows, t.id, start, end),
        present_upto(rows, rows.len() as int, t.id, start, end),
        fits_counter(t.unique_visitor as int) && fits_counter(t.referrer as int) ==> aggregates(
            rows,
            start,
            end,
            entry_of(t),
        ),
{
    lemma_earliest_created(rows, rows.len() as int, t.id, start, end);
}

/// A row outside the window leaves every tally as it is.
proof fn lemma_skip_row(rows: Seq<Statistics>, n: int, start: int, end: int, tallies: Seq<Tally>)
    requires
        0 <= n < rows.len(),
        n < 0xffff_ffff_ffff_ffff,
        tallies_hold(rows, n, start, end, tallies),
        !in_window(rows[n], start, end),
    ensures
        tallies_hold(rows, n + 1, start, end, tallies),
{
    reveal(tallies_hold);
    assert forall|g: int| 0 <= g < tallies.len() implies tally_holds(
        rows,
        n + 1,
        start,
        end,
        #[trigger] tallies[g],
    ) by {
        lemma_tally_unaffected(rows, n, start, end, tallies[g]);
    }
}

/// A row of a member that has a tally is absorbed by that tally.
proof fn lemma_merge_row(
    rows: Seq<Statistics>,
    n: int,
    start: int,
    end: int,
    tallies: Seq<Tally>,
    g: int,
)
    requires
        0 <= n < rows.len(),
        n < 0xffff_ffff_ffff_ffff,
        tallies_hold(rows, n, start, end, tallies),
        in_window(rows[n], start, end),
        0 <= g < tallies.len(),
        tallies[g].id == rows[n].membership_id,
    ensures
        tallies_hold(rows, n + 1, start, end, tallies.update(g, absorbed(tallies[g], rows[n]))),
        i128::MIN <= tallies[g].unique_visitor + rows[n].unique_visitor <= i128::MAX,
        i128::MIN <= tallies[g].referrer + rows[n].referrer <= i128::MAX,
{
    reveal(tallies_hold);
    let after = tallies.update(g, absorbed(tallies[g], rows[n]));
    lemma_tally_absorbs(rows, n, start, end, tallies[g]);
    assert forall|h: int| 0 <= h < after.len() implies tally_holds(
        rows,
        n + 1,
        start,
        end,
        #[trigger] after[h],
    ) by {
        if h != g {
            assert(after[h] == tallies[h]);
            assert(tallies[h].id != tallies[g].id);
            lemma_tally_unaffected(rows, n, start, end, tallies[h]);
        }
    }
    assert forall|a: int, b: int| 0 <= a < b < after.len() implies (#[trigger] after[a]).id != (
    #[trigger] after[b]).id by {
        assert(after[a].id == tallies[a].id);
        assert(after[b].id == tallies[b].id);
    }
    assert forall|j: int| 0 <= j < n + 1 && in_window(#[trigger] rows[j], start, end) implies exists|
        h: int,
    |
        0 <= h < after.len() && (#[trigger] after[h]).id == rows[j].membership_id by {
        if j < n {
            let h = choose|h: int|
                0 <= h < tallies.len() && (#[trigger] tallies[h]).id == rows[j].membership_id;
            assert(after[h].id == rows[j].membership_id);
        } else {
            assert(after[g].id == rows[j].membership_id);
        }
    }
}

/// A row of a member without a tally opens one.
proof fn lemma_open_row(rows: Seq<Statistics>, n: int, start: int, end: int, tallies: Seq<Tally>)
    requires
        0 <= n < rows.len(),
        n < 0xffff_ffff_ffff_ffff,
        tallies_hold(rows, n, start, end, tallies),
        in_window(rows[n], start, end),
        forall|h: int| 0 <= h < tallies.len() ==> (#[trigger] tallies[h]).id != rows[n].membership_id,
    ensures
        tallies_hold(rows, n + 1, start, end, tallies.push(opened(rows[n]))),
{
    reveal(tallies_hold);
    let row = rows[n];
    let after = tallies.push(opened(row));
    assert forall|j: int| 0 <= j < n implies !counts_for(
        #[trigger] rows[j],
        row.membership_id,
        start,
        end,
    ) by {
        if counts_for(rows[j], row.membership_id, start, end) {
            assert(in_window(rows[j], start, end));
            let h = choose|h: int|
                0 <= h < tallies.len() && (#[trigger] tallies[h]).id == rows[j].membership_id;
            assert(tallies[h].id != row.membership_id);
        }
    }
    lemma_tally_opens(rows, n, start, end);
    assert forall|h: int| 0 <= h < after.len() implies tally_holds(
        rows,
        n + 1,
        start,
        end,
        #[trigger] after[h],
    ) by {
        if h < tallies.len() {
            assert(after[h] == tallies[h]);
            lemma_tally_unaffected(rows, n, start, end, tallies[h]);
        }
    }
    assert forall|a: int, b: int| 0 <= a < b < after.len() implies (#[trigger] after[a]).id != (
    #[trigger] after[b]).id by {
        assert(after[a] == tallies[a]);
        if b < tallies.len() {
            assert(after[b] == tallies[b]);
        }
    }
    assert forall|j: int| 0 <= j < n + 1 && in_window(#[trigger] rows[j], start, end) implies exists|
        h: int,
    |
        0 <= h < after.len() && (#[trigger] after[h]).id == rows[j].membership_id by {
        if j < n {
            let h = choose|h: int|
                0 <= h < tallies.len() && (#[trigger] tallies[h]).id == rows[j].membership_id;
            assert(after[h].id == rows[j].membership_id);
        } else {
            assert(after[tallies.len() as int].id == rows[j].membership_id);
        }
    }
}

/// Before any row is walked there is no tally, and before any tally is
/// placed there is no entry.
proof fn lemma_nothing_yet(rows: Seq<Statistics>, start: int, end: int, tallies: Seq<Tally>)
    ensures
        tallies_hold(rows, 0, start, end, Seq::<Tally>::empty()),
        ranked_upto(rows, start, end, tallies, 0, Seq::<Statistics>::empty()),
{
    reveal(tallies_hold);
    reveal(drawn_from);
    reveal(covers);
}

/// Walks the rows once and keeps one running aggregate per member that has
/// a row in the window.
fn tally_rows(rows: &Vec<Statistics>, start: Timestamp, end: Timestamp) -> (tallies: Vec<Tally>)
    ensures
        tallies_hold(rows@, rows.len() as int, start as int, end as int, tallies@),
{
    let mut tallies: Vec<Tally> = Vec::new();
    let mut n: usize = 0;
    proof {
        lemma_nothing_yet(rows@, start as int, end as int, tallies@);
    }
    while n < rows.len()
        invariant
            n <= rows.len(),
            tallies_hold(rows@, n as int, start as int, end as int, tallies@),
        decreases rows.len() - n,
    {
        let row: Statistics = rows[n];
        if start <= row.created_at && row.created_at < end {
            let g: usize = find_tally(&tallies, row.membership_id);
            if g < tallies.len() {
                let t: Tally = tallies[g];
                proof {
                    lemma_merge_row(rows@, n as int, start as int, end as int, tallies@, g as int);
                }
                let merged = Tally {
                    id: t.id,
                    unique_visitor: t.unique_visitor + row.unique_visitor as i128,
                    referrer: t.referrer + row.referrer as i128,
                    created_at: if row.created_at < t.created_at {
                        row.created_at
                    } else {
                        t.created_at
                    },
                    updated_at: if row.updated_at > t.updated_at {
                        row.updated_at
                    } else {
                        t.updated_at
                    },
                    latest_referrer_at: if row.latest_referrer_at > t.latest_referrer_at {
                        row.latest_referrer_at
                    } else {
                        t.latest_referrer_at
                    },
                };
                assert(merged == absorbed(t, row));
                tallies[g] = merged;
            } else {
                proof {
                    lemma_open_row(rows@, n as int, start as int, end as int, tallies@);
                }
                let fresh = Tally {
                    id: row.membership_id,
                    unique_visitor: row.unique_visitor as i128,
                    referrer: row.referrer as i128,
                    created_at: row.created_at,
                    updated_at: row.updated_at,
                    latest_referrer_at: row.latest_referrer_at,
                };
                assert(fresh == opened(row));
                tallies.push(fresh);
            }
        } else {
            proof {
                lemma_skip_row(rows@, n as int, start as int, end as int, tallies@);
            }
        }
        n = n + 1;
    }
    tallies
}

/// Position of the tally of member `id`, or the number of tallies where the
/// member has none.
fn find_tally(tallies: &Vec<Tally>, id: i64) -> (g: usize)
    ensures
        g <= tallies.len(),
        g < tallies.len() ==> tallies[g as int].id == id,
        g == tallies.len() ==> forall|h: int|
            0 <= h < tallies.len() ==> (#[trigger] tallies[h]).id != id,
{
    let mut g: usize = 0;
    while g < tallies.len() && tallies[g].id != id
        invariant
            g <= tallies.len(),
            forall|h: int| 0 <= h < g ==> (#[trigger] tallies[h]).id != id,
        decreases tallies.len() - g,
    {
        g = g + 1;
    }
    g
}

/// Tells whether `a` stands before `b` in a ranking.
fn precedes(a: &Statistics, b: &Statistics) -> (before: bool)
    ensures
        before == ranks_before(*a, *b),
{
    a.referrer > b.referrer || (a.referrer == b.referrer && a.membership_id < b.membership_id)
}

/// The entries stand in ranking order.
spec fn ordered(entries: Seq<Statistics>) -> bool {
    forall|i: int, k: int|
        0 <= i < k < entries.len() ==> ranks_before(#[trigger] entries[i], #[trigger] entries[k])
}

/// `after` is `before` with `entry` placed at position `p`.
spec fn placed(before: Seq<Statistics>, p: int, entry: Statistics, after: Seq<Statistics>) -> bool {
    &&& after.len() == before.len() + 1
    &&& forall|i: int| 0 <= i < p ==> #[trigger] after[i] == before[i]
    &&& after[p] == entry
    &&& forall|i: int| p < i < after.len() ==> #[trigger] after[i] == before[i - 1]
}

/// The entry is the aggregate of its member's rows.
#[verifier::opaque]
spec fn entry_holds(rows: Seq<Statistics>, start: int, end: int, entry: Statistics) -> bool {
    aggregates(rows, start, end, entry)
}

/// No two tallies belong to one member.
spec fn distinct_tallies(tallies: Seq<Tally>) -> bool {
    forall|g: int, h: int|
        0 <= g < h < tallies.len() ==> (#[trigger] tallies[g]).id != (#[trigger] tallies[h]).id
}

/// Every entry belongs to the member of one of the first `g` tallies.
#[verifier::opaque]
spec fn drawn_from(tallies: Seq<Tally>, g: int, out: Seq<Statistics>) -> bool {
    forall|i: int|
        0 <= i < out.len() ==> exists|h: int|
            0 <= h < g && (#[trigger] tallies[h]).id == (#[trigger] out[i]).membership_id
}

/// The member of each of the first `g` tallies has an entry.
#[verifier::opaque]
spec fn covers(tallies: Seq<Tally>, g: int, out: Seq<Statistics>) -> bool {
    forall|h: int|
        0 <= h < g ==> exists|i: int|
            0 <= i < out.len() && (#[trigger] out[i]).membership_id == (#[trigger] tallies[h]).id
}

/// `out` ranks the members of the first `g` tallies.
spec fn ranked_upto(
    rows: Seq<Statistics>,
    start: int,
    end: int,
    tallies: Seq<Tally>,
    g: int,
    out: Seq<Statistics>,
) -> bool {
    &&& forall|i: int| 0 <= i < out.len() ==> entry_holds(rows, start, end, #[trigger] out[i])
    &&& drawn_from(tallies, g, out)
    &&& covers(tallies, g, out)
    &&& ordered(out)
}

/// What valid tallies say of each tally and of their members.
proof fn lemma_tallies_each(
    rows: Seq<Statistics>,
    n: int,
    start: int,
    end: int,
    tallies: Seq<Tally>,
    g: int,
)
    requires
        tallies_hold(rows, n, start, end, tallies),
        0 <= g < tallies.len(),
    ensures
        tally_holds(rows, n, start, end, tallies[g]),
        distinct_tallies(tallies),
{
    reveal(tallies_hold);
}

/// The placed entry stands behind all that rank before it.
proof fn lemma_place_order(
    tallies: Seq<Tally>,
    g: int,
    before: Seq<Statistics>,
    p: int,
    entry: Statistics,
    after: Seq<Statistics>,
)
    requires
        0 <= g < tallies.len(),
        0 <= p <= before.len(),
        distinct_tallies(tallies),
        drawn_from(tallies, g, before),
        ordered(before),
        entry.membership_id == tallies[g].id,
        placed(before, p, entry, after),
        forall|q: int| 0 <= q < p ==> !ranks_before(entry, #[trigger] before[q]),
        p < before.len() ==> ranks_before(entry, before[p]),
    ensures
        ordered(after),
{
    assert forall|q: int| 0 <= q < p implies ranks_before(#[trigger] before[q], entry) by {
        reveal(drawn_from);
        let h = choose|h: int|
            0 <= h < g && (#[trigger] tallies[h]).id == before[q].membership_id;
        assert(tallies[h].id != tallies[g].id);
    }
    assert forall|i: int, k: int| 0 <= i < k < after.len() implies ranks_before(
        #[trigger] after[i],
        #[trigger] after[k],
    ) by {
        if k < p {
            assert(after[i] == before[i] && after[k] == before[k]);
        } else if k == p {
            assert(after[i] == before[i]);
        } else if i == p {
            assert(after[k] == before[k - 1]);
            if k - 1 > p {
                assert(ranks_before(before[p], before[k - 1]));
            }
        } else if i < p {
            assert(after[i] == before[i] && after[k] == before[k - 1]);
            if p < k - 1 {
                assert(ranks_before(before[p], before[k - 1]));
            }
        } else {
            assert(after[i] == before[i - 1] && after[k] == before[k - 1]);
        }
    }
}

/// The entries with the placed one belong to the first `g + 1` tallies.
proof fn lemma_place_drawn(
    tallies: Seq<Tally>,
    g: int,
    before: Seq<Statistics>,
    p: int,
    entry: Statistics,
    after: Seq<Statistics>,
)
    requires
        0 <= g < tallies.len(),
        0 <= p <= before.len(),
        drawn_from(tallies, g, before),
        entry.membership_id == tallies[g].id,
        placed(before, p, entry, after),
    ensures
        drawn_from(tallies, g + 1, after),
{
    reveal(drawn_from);
    assert forall|i: int| 0 <= i < after.len() implies exists|h: int|
        0 <= h < g + 1 && (#[trigger] tallies[h]).id == (#[trigger] after[i]).membership_id by {
        if i == p {
            assert(tallies[g].id == after[i].membership_id);
        } else {
            let b = if i < p {
                i
            } else {
                i - 1
            };
            assert(after[i] == before[b]);
            let h = choose|h: int|
                0 <= h < g && (#[trigger] tallies[h]).id == before[b].membership_id;
            assert(tallies[h].id == after[i].membership_id);
        }
    }
}

/// The entries with the placed one cover the first `g + 1` tallies.
proof fn lemma_place_covers(
    tallies: Seq<Tally>,
    g: int,
    before: Seq<Statistics>,
    p: int,
    entry: Statistics,
    after: Seq<Statistics>,
)
    requires
        0 <= g < tallies.len(),
        0 <= p <= before.len(),
        covers(tallies, g, before),
        entry.membership_id == tallies[g].id,
        placed(before, p, entry, after),
    ensures
        covers(tallies, g + 1, after),
{
    reveal(covers);
    assert forall|h: int| 0 <= h < g + 1 implies exists|i: int|
        0 <= i < after.len() && (#[trigger] after[i]).membership_id == (#[trigger] tallies[h]).id by {
        if h == g {
            assert(after[p].membership_id == tallies[h].id);
        } else {
            let b = choose|b: int|
                0 <= b < before.len() && (#[trigger] before[b]).membership_id == tallies[h].id;
            let i = if b < p {
                b
            } else {
                b + 1
            };
            assert(after[i] == before[b]);
            assert(after[i].membership_id == tallies[h].id);
        }
    }
}

/// Placing the entry of the next tally at the first position whose entry
/// it ranks before extends the ranking by that tally.
proof fn lemma_place(
    rows: Seq<Statistics>,
    start: int,
    end: int,
    tallies: Seq<Tally>,
    g: int,
    before: Seq<Statistics>,
    p: int,
    after: Seq<Statistics>,
)
    requires
        0 <= g < tallies.len(),
        0 <= p <= before.len(),
        tallies_hold(rows, rows.len() as int, start, end, tallies),
        ranked_upto(rows, start, end, tallies, g, before),
        fits_counter(tallies[g].unique_visitor as int),
        fits_counter(tallies[g].referrer as int),
        placed(before, p, entry_of(tallies[g]), after),
        forall|q: int| 0 <= q < p ==> !ranks_before(entry_of(tallies[g]), #[trigger] before[q]),
        p < before.len() ==> ranks_before(entry_of(tallies[g]), before[p]),
    ensures
        ranked_upto(rows, start, end, tallies, g + 1, after),
{
    let entry = entry_of(tallies[g]);
    lemma_tallies_each(rows, rows.len() as int, start, end, tallies, g);
    assert(entry_holds(rows, start, end, entry)) by {
        reveal(entry_holds);
        lemma_tally_entry(rows, start, end, tallies[g]);
    }
    lemma_place_order(tallies, g, before, p, entry, after);
    lemma_place_drawn(tallies, g, before, p, entry, after);
    lemma_place_covers(tallies, g, before, p, entry, after);
    assert forall|i: int| 0 <= i < after.len() implies entry_holds(
        rows,
        start,
        end,
        #[trigger] after[i],
    ) by {
        if i < p {
            assert(after[i] == before[i]);
        } else if i > p {
            assert(after[i] == before[i - 1]);
        }
    }
}

/// A tally whose sums leave the range of a row's counters shows that the
/// sums do not fit.
proof fn lemma_tally_out_of_range(
    rows: Seq<Statistics>,
    start: int,
    end: int,
    tallies: Seq<Tally>,
    g: int,
)
    requires
        0 <= g < tallies.len(),
        tallies_hold(rows, rows.len() as int, start, end, tallies),
        !(fits_counter(tallies[g].unique_visitor as int) && fits_counter(
            tallies[g].referrer as int,
        )),
    ensures
        !sums_fit(rows, start, end),
{
    reveal(tallies_hold);
    lemma_tally_entry(rows, start, end, tallies[g]);
    let j = choose|j: int|
        0 <= j < rows.len() && counts_for(#[trigger] rows[j], tallies[g].id, start, end);
    assert(in_window(rows[j], start, end));
}

/// Once every tally has been placed, the entries are the ranking.
proof fn lemma_ranking_complete(
    rows: Seq<Statistics>,
    start: int,
    end: int,
    tallies: Seq<Tally>,
    out: Seq<Statistics>,
)
    requires
        tallies_hold(rows, rows.len() as int, start, end, tallies),
        ranked_upto(rows, start, end, tallies, tallies.len() as int, out),
        forall|h: int|
            0 <= h < tallies.len() ==> fits_counter((#[trigger] tallies[h]).unique_visitor as int)
                && fits_counter(tallies[h].referrer as int),
    ensures
        sums_fit(rows, start, end),
        is_ranking(rows, start, end, out),
{
    reveal(tallies_hold);
    reveal(covers);
    reveal(entry_holds);
    assert forall|j: int|
        0 <= j < rows.len() && in_window(#[trigger] rows[j], start, end) implies exists|i: int|
        0 <= i < out.len() && (#[trigger] out[i]).membership_id == rows[j].membership_id by {
        let h = choose|h: int|
            0 <= h < tallies.len() && (#[trigger] tallies[h]).id == rows[j].membership_id;
        let i = choose|i: int|
            0 <= i < out.len() && (#[trigger] out[i]).membership_id == tallies[h].id;
        assert(out[i].membership_id == rows[j].membership_id);
    }
    assert forall|j: int|
        0 <= j < rows.len() && in_window(#[trigger] rows[j], start, end) implies fits_counter(
        window_unique_visitor(rows, rows[j].membership_id, start, end),
    ) && fits_counter(window_referrer(rows, rows[j].membership_id, start, end)) by {
        let h = choose|h: int|
            0 <= h < tallies.len() && (#[trigger] tallies[h]).id == rows[j].membership_id;
        lemma_tally_entry(rows, start, end, tallies[h]);
    }
    assert forall|i: int| 0 <= i < out.len() implies aggregates(
        rows,
        start,
        end,
        #[trigger] out[i],
    ) by {
        assert(entry_holds(rows, start, end, out[i]));
    }
}

/// Turns the running aggregates into entries and puts them in order.
fn rank_tallies(
    rows: &Vec<Statistics>,
    start: Timestamp,
    end: Timestamp,
    tallies: &Vec<Tally>,
) -> (ranking: Result<Vec<Statistics>, RankError>)
    requires
        tallies_hold(rows@, rows.len() as int, start as int, end as int, tallies@),
    ensures
        match ranking {
            Ok(entries) => sums_fit(rows@, start as int, end as int) && is_ranking(
                rows@,
                start as int,
                end as int,
                entries@,
            ),
            Err(_) => !sums_fit(rows@, start as int, end as int),
        },
{
    let mut out: Vec<Statistics> = Vec::new();
    let mut g: usize = 0;
    proof {
        lemma_nothing_yet(rows@, start as int, end as int, tallies@);
    }
    while g < tallies.len()
        invariant
            g <= tallies.len(),
            tallies_hold(rows@, rows.len() as int, start as int, end as int, tallies@),
            forall|h: int|
                0 <= h < g ==> fits_counter((#[trigger] tallies[h]).unique_visitor as int)
                    && fits_counter(tallies[h].referrer as int),
            ranked_upto(rows@, start as int, end as int, tallies@, g as int, out@),
        decreases tallies.len() - g,
    {
        let t: Tally = tallies[g];
        if t.unique_visitor < i64::MIN as i128 || t.unique_visitor > i64::MAX as i128
            || t.referrer < i64::MIN as i128 || t.referrer > i64::MAX as i128 {
            proof {
                lemma_tally_out_of_range(rows@, start as int, end as int, tallies@, g as int);
            }
            return Err(RankError::SumOutOfRange);
        }
        let entry = Statistics {
            id: 0,
            created_at: t.created_at,
            updated_at: t.updated_at,
            membership_id: t.id,
            unique_visitor: t.unique_visitor as i64,
            referrer: t.referrer as i64,
            latest_referrer_at: t.latest_referrer_at,
        };
        assert(entry == entry_of(t));
        let p: usize = find_place(&out, &entry);
        let ghost before = out@;
        out.insert(p, entry);
        proof {
            before.insert_ensures(p as int, entry);
            assert(placed(before, p as int, entry, out@)) by {
                assert forall|i: int| p < i < out@.len() implies #[trigger] out@[i] == before[i
                    - 1] by {
                    assert(out@[(i - 1) + 1] == before[i - 1]);
                }
            }
            lemma_place(
                rows@,
                start as int,
                end as int,
                tallies@,
                g as int,
                before,
                p as int,
                out@,
            );
        }
        g = g + 1;
    }
    proof {
        lemma_ranking_complete(rows@, start as int, end as int, tallies@, out@);
    }
    Ok(out)
}

/// First position whose entry `entry` ranks before, or the length where
/// there is none.
fn find_place(out: &Vec<Statistics>, entry: &Statistics) -> (p: usize)
    ensures
        p <= out.len(),
        forall|q: int| 0 <= q < p ==> !ranks_before(*entry, #[trigger] out[q]),
        p < out.len() ==> ranks_before(*entry, out[p as int]),
{
    let mut p: usize = 0;
    while p < out.len() && !precedes(entry, &out[p])
        invariant
            p <= out.len(),
            forall|q: int| 0 <= q < p ==> !ranks_before(*entry, #[trigger] out[q]),
        decreases out.len() - p,
    {
        p = p + 1;
    }
    p
}

impl Statistics {
    /// Ranks the members that have rows in the window `[start, end)`.
    ///
    /// The call succeeds exactly when every such member's counters, summed
    /// over the window, fit a row's counters; the result is the one
    /// sequence that [`is_ranking`] admits.
    pub fn rank_between(rows: &Vec<Statistics>, start: Timestamp, end: Timestamp) -> (ranking:
        Result<Vec<Statistics>, RankError>)
        ensures
            match ranking {
                Ok(entries) => sums_fit(rows@, start as int, end as int) && is_ranking(
                    rows@,
                    start as int,
                    end as int,
                    entries@,
                ),
                Err(_) => !sums_fit(rows@, start as int, end as int),
            },
    {
        let tallies = tally_rows(rows, start, end);
        rank_tallies(rows, start, end, &tallies)
    }
}

/// Every entry of `a` is an entry of `b`.
#[verifier::opaque]
spec fn within(a: Seq<Statistics>, b: Seq<Statistics>) -> bool {
    forall|i: int| 0 <= i < a.len() ==> b.contains(#[trigger] a[i])
}

/// An entry of `b` that equals a given entry of `a`.
proof fn lemma_within_pick(a: Seq<Statistics>, b: Seq<Statistics>, i: int) -> (j: int)
    requires
        within(a, b),
        0 <= i < a.len(),
    ensures
        0 <= j < b.len(),
        b[j] == a[i],
{
    reveal(within);
    assert(b.contains(a[i]));
    choose|j: int| 0 <= j < b.len() && #[trigger] b[j] == a[i]
}

/// Behind a common first entry, the entries of `a` are entries of `b`.
proof fn lemma_within_rest(a: Seq<Statistics>, b: Seq<Statistics>)
    requires
        ordered(a),
        within(a, b),
        a.len() > 0,
        b.len() > 0,
        a[0] == b[0],
    ensures
        within(a.subrange(1, a.len() as int), b.subrange(1, b.len() as int)),
{
    reveal(within);
    let a_rest = a.subrange(1, a.len() as int);
    let b_rest = b.subrange(1, b.len() as int);
    assert forall|i: int| 0 <= i < a_rest.len() implies b_rest.contains(#[trigger] a_rest[i]) by {
        assert(ranks_before(a[0], a[i + 1]));
        assert(b.contains(a[i + 1]));
        let m = choose|m: int| 0 <= m < b.len() && #[trigger] b[m] == a[i + 1];
        assert(m != 0);
        assert(b_rest[m - 1] == a_rest[i]);
    }
}

/// What stands behind the first entry of an ordered sequence is ordered.
proof fn lemma_ordered_rest(a: Seq<Statistics>)
    requires
        ordered(a),
        a.len() > 0,
    ensures
        ordered(a.subrange(1, a.len() as int)),
{
    let a_rest = a.subrange(1, a.len() as int);
    assert forall|i: int, l: int| 0 <= i < l < a_rest.len() implies ranks_before(
        #[trigger] a_rest[i],
        #[trigger] a_rest[l],
    ) by {
        assert(ranks_before(a[i + 1], a[l + 1]));
    }
}

/// Two sequences in ranking order that hold the same entries are equal.
proof fn lemma_ordered_same_entries(a: Seq<Statistics>, b: Seq<Statistics>)
    requires
        ordered(a),
        ordered(b),
        within(a, b),
        within(b, a),
    ensures
        a == b,
    decreases a.len(),
{
    if a.len() == 0 {
        if b.len() > 0 {
            let i = lemma_within_pick(b, a, 0);
        }
        assert(a =~= b);
    } else {
        let j = lemma_within_pick(a, b, 0);
        let k = lemma_within_pick(b, a, 0);
        if j > 0 {
            assert(ranks_before(b[0], b[j]));
            if k > 0 {
                assert(ranks_before(a[0], a[k]));
            }
        }
        assert(a[0] == b[0]);
        let a_rest = a.subrange(1, a.len() as int);
        let b_rest = b.subrange(1, b.len() as int);
        lemma_ordered_rest(a);
        lemma_ordered_rest(b);
        lemma_within_rest(a, b);
        lemma_within_rest(b, a);
        lemma_ordered_same_entries(a_rest, b_rest);
        assert(a =~= b) by {
            assert(a.len() == a_rest.len() + 1);
            assert(b.len() == b_rest.len() + 1);
            assert forall|i: int| 0 <= i < a.len() implies a[i] == b[i] by {
                if i > 0 {
                    assert(a_rest[i - 1] == a[i]);
                    assert(b_rest[i - 1] == b[i]);
                }
            }
        }
    }
}

/// Every entry of one ranking is an entry of any other ranking of the same
/// rows over the same window.
proof fn lemma_ranking_within(
    rows: Seq<Statistics>,
    start: int,
    end: int,
    a: Seq<Statistics>,
    b: Seq<Statistics>,
)
    requires
        is_ranking(rows, start, end, a),
        is_ranking(rows, start, end, b),
    ensures
        within(a, b),
{
    reveal(within);
    assert forall|i: int| 0 <= i < a.len() implies b.contains(#[trigger] a[i]) by {
        assert(aggregates(rows, start, end, a[i]));
        let id = a[i].membership_id;
        lemma_earliest_created(rows, rows.len() as int, id, start, end);
        let w = choose|w: int| 0 <= w < rows.len() && counts_for(#[trigger] rows[w], id, start, end);
        assert(in_window(rows[w], start, end));
        let j = choose|j: int|
            0 <= j < b.len() && (#[trigger] b[j]).membership_id == rows[w].membership_id;
        assert(aggregates(rows, start, end, b[j]));
        assert(b[j] == a[i]);
    }
}

/// The ranking of given rows over a given window is unique.
pub proof fn lemma_ranking_unique(
    rows: Seq<Statistics>,
    start: int,
    end: int,
    a: Seq<Statistics>,
    b: Seq<Statistics>,
)
    requires
        is_ranking(rows, start, end, a),
        is_ranking(rows, start, end, b),
    ensures
        a == b,
{
    lemma_ranking_within(rows, start, end, a, b);
    lemma_ranking_within(rows, start, end, b, a);
    lemma_ordered_same_entries(a, b);
}

/// The members of a ranking are pairwise distinct.
pub proof fn lemma_ranking_members_distinct(
    rows: Seq<Statistics>,
    start: int,
    end: int,
    ranking: Seq<Statistics>,
)
    requires
        is_ranking(rows, start, end, ranking),
    ensures
        forall|i: int, k: int|
            0 <= i < k < ranking.len() ==> (#[trigger] ranking[i]).membership_id != (
            #[trigger] ranking[k]).membership_id,
{
    assert forall|i: int, k: int| 0 <= i < k < ranking.len() implies (
    #[trigger] ranking[i]).membership_id != (#[trigger] ranking[k]).membership_id by {
        assert(aggregates(rows, start, end, ranking[i]));
        assert(aggregates(rows, start, end, ranking[k]));
        assert(ranks_before(ranking[i], ranking[k]));
    }
}

/// Rows of a single member, of which at least one lies in the window, rank
/// as one entry: the member's counters summed over the window, with the
/// earliest day bucket and the latest update instants of its rows there.
pub proof fn lemma_single_member_ranking(
    rows: Seq<Statistics>,
    start: int,
    end: int,
    ranking: Seq<Statistics>,
    id: i64,
)
    requires
        is_ranking(rows, start, end, ranking),
        forall|j: int| 0 <= j < rows.len() ==> (#[trigger] rows[j]).membership_id == id,
        exists|j: int| 0 <= j < rows.len() && in_window(#[trigger] rows[j], start, end),
    ensures
        ranking.len() == 1,
        ranking[0].membership_id == id,
        ranking[0].unique_visitor == window_unique_visitor(rows, id, start, end),
        ranking[0].referrer == window_referrer(rows, id, start, end),
        window_created_at(rows, id, start, end) == Some(ranking[0].created_at as int),
        window_updated_at(rows, id, start, end) == Some(ranking[0].updated_at as int),
        window_latest_referrer_at(rows, id, start, end) == Some(
            ranking[0].latest_referrer_at as int,
        ),
{
    let j = choose|j: int| 0 <= j < rows.len() && in_window(#[trigger] rows[j], start, end);
    let i = choose|i: int|
        0 <= i < ranking.len() && (#[trigger] ranking[i]).membership_id == rows[j].membership_id;
    assert forall|k: int| 0 <= k < ranking.len() implies (#[trigger] ranking[k]).membership_id
        == id by {
        assert(aggregates(rows, start, end, ranking[k]));
        lemma_earliest_created(rows, rows.len() as int, ranking[k].membership_id, start, end);
        let w = choose|w: int|
            0 <= w < rows.len() && counts_for(
                #[trigger] rows[w],
                ranking[k].membership_id,
                start,
                end,
            );
        assert(rows[w].membership_id == id);
    }
    lemma_ranking_members_distinct(rows, start, end, ranking);
    if ranking.len() > 1 {
        assert(ranking[0].membership_id != ranking[1].membership_id);
    }
    assert(aggregates(rows, start, end, ranking[0]));
}

} // verus!
