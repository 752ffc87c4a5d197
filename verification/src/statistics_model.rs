//! Daily statistics rows and the baseline that a past day gives.

use crate::clock::Timestamp;
use vstd::prelude::*;

verus! {

/// One durable row: the activity of one member on one day. `created_at` is
/// the day bucket; a member has at most one row per bucket.
#[derive(Clone, Copy, Debug, PartialEq, Eq, Structural)]
pub struct Statistics {
    pub id: i32,
    pub created_at: Timestamp,
    pub updated_at: Timestamp,
    pub membership_id: i64,
    pub unique_visitor: i64,
    pub referrer: i64,
    pub latest_referrer_at: Timestamp,
}

impl Statistics {
    /// Total activity of the row: referrers plus unique visitors.
    pub open spec fn views(self) -> int {
        self.referrer + self.unique_visitor
    }

    /// A row counts as active when it records any activity.
    pub open spec fn is_active(self) -> bool {
        self.views() > 0
    }
}

/// Sum of the activity of the active rows.
pub open spec fn active_views(records: Seq<Statistics>) -> int
    decreases records.len(),
{
    if records.len() == 0 {
        0
    } else {
        active_views(records.drop_last()) + (if records.last().is_active() {
            records.last().views()
        } else {
            0int
        })
    }
}

/// Number of active rows.
pub open spec fn active_count(records: Seq<Statistics>) -> int
    decreases records.len(),
{
    if records.len() == 0 {
        0
    } else {
        active_count(records.drop_last()) + (if records.last().is_active() {
            1int
        } else {
            0int
        })
    }
}

/// The baseline that a day's rows give: the average activity per active
/// member, divided by ten, and never less than one.
pub open spec fn baseline_of(records: Seq<Statistics>) -> int {
    let sum = active_views(records);
    let count = active_count(records);
    if count > 0 && sum / count / 10 > 0 {
        sum / count / 10
    } else {
        1
    }
}

/// Largest activity that a single row can hold.
pub open spec fn max_views() -> int {
    2 * (i64::MAX as int)
}

proof fn lemma_average_bounds(sum: int, count: int)
    requires
        count > 0,
        0 <= sum <= count * max_views(),
    ensures
        0 <= sum / count / 10 <= i64::MAX,
{
    assert(sum / count <= max_views()) by (nonlinear_arith)
        requires
            count > 0,
            sum <= count * max_views(),
    ;
    assert(sum / count >= 0) by (nonlinear_arith)
        requires
            count > 0,
            sum >= 0,
    ;
}

impl Statistics {
    /// The baseline for today, from what loading the previous day's rows
    /// gave: [`baseline_of`] those rows, or one where they could not be
    /// loaded.
    pub fn prev_day_rank_avg(loaded: &Option<Vec<Statistics>>) -> (rank_svg: i64)
        ensures
            rank_svg == (match *loaded {
                Some(records) => baseline_of(records@),
                None => 1,
            }),
            rank_svg >= 1,
    {
        match loaded {
            None => 1,
            Some(records) => Self::baseline(records),
        }
    }

    /// Computes [`baseline_of`] the given rows.
    pub fn baseline(records: &Vec<Statistics>) -> (rank_svg: i64)
        ensures
            rank_svg == baseline_of(records@),
            rank_svg >= 1,
    {
        let mut sum: u128 = 0;
        let mut count: usize = 0;
        let mut i: usize = 0;
        while i < records.len()
            invariant
                i <= records.len(),
                count <= i,
                count == active_count(records@.take(i as int)),
                sum == active_views(records@.take(i as int)),
                sum <= count * max_views(),
            decreases records.len() - i,
        {
            let row: Statistics = records[i];
            let view: i128 = row.referrer as i128 + row.unique_visitor as i128;
            proof {
                assert(records@.take(i + 1).drop_last() == records@.take(i as int));
                assert(records@.take(i + 1).last() == row);
                assert(view == row.views());
                assert((count + 1) * max_views() <= 0xffff_ffff_ffff_ffff * max_views())
                    by (nonlinear_arith)
                    requires
                        count + 1 <= 0xffff_ffff_ffff_ffff,
                        max_views() >= 0,
                ;
                assert((count + 1) * max_views() == count * max_views() + max_views())
                    by (nonlinear_arith);
            }
            if view > 0 {
                sum = sum + view as u128;
                count = count + 1;
            }
            i = i + 1;
        }
        proof {
            assert(records@.take(i as int) == records@);
        }
        if count > 0 {
            proof {
                lemma_average_bounds(sum as int, count as int);
            }
            let avg: u128 = sum / (count as u128) / 10;
            if avg > 0 {
                return avg as i64;
            }
        }
        1
    }
}

} // verus!
