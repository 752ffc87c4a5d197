//! What the pages and the badge show, computed from the engine's state.
//!
//! The functions of this module decide; they serve no request themselves.

use crate::app_model::Context;
use crate::clock::{trailing_start, Timestamp, TRAILING_WINDOW};
use crate::counter_store::CounterStore;
use crate::engagement::{compute_level, level};
use crate::membership_model::{
    distinct_ids, has_id, lemma_member_of_id, member_of_id, MemberDirectory, Membership,
    MembershipView, RankAndMembership,
};
use crate::statistics_model::Statistics;
use crate::visitor::VisitorType;
use vstd::prelude::*;
use vstd::string::StringExecFns;

verus! {

/// The mark that stands for the domain of the site that embeds the badge.
pub const OWN_DOMAIN_MARK: &'static str = "[domain]";

/// Number of entries that the home page features.
pub const FEATURED: usize = 10;

/// The visit that a request for the badge of `domain` stands for, given
/// the referring domain (empty where the request names none): a badge
/// visit to the site that shows its own badge, a badge visit to the
/// referring site where the badge was asked for by that mark, and
/// an icon visit where another site shows the badge.
pub open spec fn badge_visit(domain: Seq<char>, referrer: Seq<char>) -> (VisitorType, Seq<char>) {
    if referrer == domain {
        (VisitorType::Badge, domain)
    } else if domain == OWN_DOMAIN_MARK@ {
        (VisitorType::Badge, referrer)
    } else {
        (VisitorType::ICON, domain)
    }
}

/// Decides which visit a request for a badge stands for.
pub fn badge_request(domain: String, referrer: String) -> (visit: (VisitorType, String))
    ensures
        (visit.0, visit.1@) == badge_visit(domain@, referrer@),
{
    if referrer == domain {
        (VisitorType::Badge, domain)
    } else {
        let mark = String::from_str(OWN_DOMAIN_MARK);
        if domain == mark {
            (VisitorType::Badge, referrer)
        } else {
            (VisitorType::ICON, domain)
        }
    }
}

/// A member with its counts of today and its level.
#[derive(Clone, Debug)]
pub struct MemberStanding {
    pub member: Membership,
    pub unique_visitor: i64,
    pub referrer: i64,
    pub level: i64,
}

/// A standing as contracts see it.
pub struct MemberStandingView {
    pub member: MembershipView,
    pub unique_visitor: i64,
    pub referrer: i64,
    pub level: i64,
}

impl View for MemberStanding {
    type V = MemberStandingView;

    open spec fn view(&self) -> MemberStandingView {
        MemberStandingView {
            member: self.member@,
            unique_visitor: self.unique_visitor,
            referrer: self.referrer,
            level: self.level,
        }
    }
}

/// The standings by their views.
pub open spec fn standing_views(list: Seq<MemberStanding>) -> Seq<MemberStandingView> {
    Seq::new(list.len(), |k: int| list[k]@)
}

/// The member was active today.
pub open spec fn is_active(counters: CounterStore, id: i64) -> bool {
    counters.unique_visitor_count(id) > 0 || counters.referrer_count(id) > 0
}

/// The standing of a member under the given counters and baseline.
pub open spec fn standing_of(member: MembershipView, counters: CounterStore, baseline: int) -> MemberStandingView {
    MemberStandingView {
        member,
        unique_visitor: counters.unique_visitor_count(member.id) as i64,
        referrer: counters.referrer_count(member.id) as i64,
        level: level(
            counters.unique_visitor_count(member.id),
            counters.referrer_count(member.id),
            baseline,
        ) as i64,
    }
}

/// The activity of a standing in units of the baseline, not clamped.
pub open spec fn score(standing: MemberStandingView, baseline: int) -> int {
    (standing.unique_visitor + standing.referrer) / baseline
}

/// The order of the home page: the higher score first, and of two equal
/// scores the smaller member identifier first.
pub open spec fn stands_before(a: MemberStandingView, b: MemberStandingView, baseline: int) -> bool {
    score(a, baseline) > score(b, baseline) || (score(a, baseline) == score(b, baseline)
        && a.member.id < b.member.id)
}

/// `list` holds the standings of the active members, in the order of the
/// home page: every standing is that of an active member of the
/// directory, every active member has a standing, and the standings are
/// in order.
pub open spec fn is_standing_list(
    members: Seq<MembershipView>,
    counters: CounterStore,
    baseline: int,
    list: Seq<MemberStandingView>,
) -> bool {
    &&& forall|k: int|
        0 <= k < list.len() ==> {
            let standing = #[trigger] list[k];
            &&& is_active(counters, standing.member.id)
            &&& member_of_id(members, standing.member.id) == Some(standing.member)
            &&& standing == standing_of(standing.member, counters, baseline)
        }
    &&& forall|i: int|
        0 <= i < members.len() && is_active(counters, (#[trigger] members[i]).id) ==> exists|
            k: int,
        |
            0 <= k < list.len() && (#[trigger] list[k]).member.id == members[i].id
    &&& forall|k: int, l: int|
        0 <= k < l < list.len() ==> stands_before(#[trigger] list[k], #[trigger] list[l], baseline)
}

/// The part of a ranking that a page shows in one of its lists.
#[derive(Clone, Copy, Debug, PartialEq, Eq, Structural)]
pub enum Shelf {
    /// Updated within the trailing thirty days, the first instant of them
    /// counted in.
    Fresh,
    /// Updated before the trailing thirty days.
    Stale,
    /// Updated later than the first instant of the trailing thirty days.
    Recent,
    /// Updated at the first instant of the trailing thirty days or before.
    Lapsed,
}

/// An entry updated at `t` belongs on the shelf at the instant `now`.
pub open spec fn belongs(shelf: Shelf, t: int, now: int) -> bool {
    match shelf {
        Shelf::Fresh => t >= trailing_start(now),
        Shelf::Stale => t < trailing_start(now),
        Shelf::Recent => t > trailing_start(now),
        Shelf::Lapsed => t <= trailing_start(now),
    }
}

/// A ranked member as contracts see it.
pub struct RankAndMembershipView {
    pub rank: Statistics,
    pub membership: MembershipView,
}

impl View for RankAndMembership {
    type V = RankAndMembershipView;

    open spec fn view(&self) -> RankAndMembershipView {
        RankAndMembershipView { rank: self.rank, membership: self.membership@ }
    }
}

/// The ranked members by their views.
pub open spec fn ranked_views(list: Seq<RankAndMembership>) -> Seq<RankAndMembershipView> {
    Seq::new(list.len(), |k: int| list[k]@)
}

/// The shelf filled from the first `n` entries of a ranking: in the order
/// of the ranking, each entry of a known member that belongs on the shelf,
/// as long as the shelf holds fewer than `limit`.
pub open spec fn shelved_upto(
    ranking: Seq<Statistics>,
    n: int,
    members: Seq<MembershipView>,
    shelf: Shelf,
    now: int,
    limit: int,
) -> Seq<RankAndMembershipView>
    decreases n,
{
    if n <= 0 {
        Seq::<RankAndMembershipView>::empty()
    } else {
        let earlier = shelved_upto(ranking, n - 1, members, shelf, now, limit);
        let entry = ranking[n - 1];
        if earlier.len() < limit && belongs(shelf, entry.updated_at as int, now) && has_id(
            members,
            entry.membership_id,
        ) {
            earlier.push(
                RankAndMembershipView {
                    rank: entry,
                    membership: member_of_id(members, entry.membership_id).unwrap(),
                },
            )
        } else {
            earlier
        }
    }
}

/// The shelf filled from a whole ranking.
pub open spec fn shelved(
    ranking: Seq<Statistics>,
    members: Seq<MembershipView>,
    shelf: Shelf,
    now: int,
    limit: int,
) -> Seq<RankAndMembershipView> {
    shelved_upto(ranking, ranking.len() as int, members, shelf, now, limit)
}

/// Tells whether an entry updated at `t` belongs on the shelf.
pub fn on_shelf(shelf: Shelf, t: Timestamp, now: Timestamp) -> (fits: bool)
    ensures
        fits == belongs(shelf, t as int, now as int),
{
    let start: i128 = now as i128 - TRAILING_WINDOW as i128;
    let at: i128 = t as i128;
    match shelf {
        Shelf::Fresh => at >= start,
        Shelf::Stale => at < start,
        Shelf::Recent => at > start,
        Shelf::Lapsed => at <= start,
    }
}

/// Fills a shelf from a ranking.
pub fn shelve(
    directory: &MemberDirectory,
    ranking: &Vec<Statistics>,
    shelf: Shelf,
    now: Timestamp,
    limit: usize,
) -> (list: Vec<RankAndMembership>)
    requires
        directory.wf(),
    ensures
        ranked_views(list@) == shelved(ranking@, directory@, shelf, now as int, limit as int),
{
    let mut list: Vec<RankAndMembership> = Vec::new();
    let mut n: usize = 0;
    assert(ranked_views(list@) =~= shelved_upto(
        ranking@,
        0,
        directory@,
        shelf,
        now as int,
        limit as int,
    ));
    while n < ranking.len()
        invariant
            n <= ranking.len(),
            directory.wf(),
            ranked_views(list@) == shelved_upto(
                ranking@,
                n as int,
                directory@,
                shelf,
                now as int,
                limit as int,
            ),
        decreases ranking.len() - n,
    {
        let entry: Statistics = ranking[n];
        if list.len() < limit && on_shelf(shelf, entry.updated_at, now) {
            match directory.position_of(entry.membership_id) {
                Some(position) => {
                    let ghost before = ranked_views(list@);
                    let ranked = RankAndMembership {
                        rank: entry,
                        membership: directory.member(position).duplicate(),
                    };
                    list.push(ranked);
                    assert(ranked_views(list@) =~= before.push(ranked@));
                },
                None => {},
            }
        }
        n = n + 1;
    }
    list
}

/// What the ranking page lists.
#[derive(Clone, Debug)]
pub struct RankPage {
    /// The members of the all-time ranking that were updated within the
    /// trailing thirty days.
    pub rank: Vec<RankAndMembership>,
    /// The members of the all-time ranking that were not.
    pub to_be_remove: Vec<RankAndMembership>,
}

/// Computes what the ranking page lists at the instant `now`.
pub fn rank_page(context: &Context, now: Timestamp) -> (page: RankPage)
    requires
        context.wf(),
    ensures
        ranked_views(page.rank@) == shelved(
            context.rank(),
            context.members(),
            Shelf::Recent,
            now as int,
            usize::MAX as int,
        ),
        ranked_views(page.to_be_remove@) == shelved(
            context.rank(),
            context.members(),
            Shelf::Lapsed,
            now as int,
            usize::MAX as int,
        ),
{
    proof {
        context.lemma_wf();
    }
    let directory = context.directory();
    let rankings = context.current_rankings();
    RankPage {
        rank: shelve(directory, rankings.0, Shelf::Recent, now, usize::MAX),
        to_be_remove: shelve(directory, rankings.0, Shelf::Lapsed, now, usize::MAX),
    }
}

/// Every standing is that of an active member among the first `n`.
#[verifier::opaque]
spec fn standings_drawn(
    members: Seq<MembershipView>,
    counters: CounterStore,
    baseline: int,
    n: int,
    list: Seq<MemberStandingView>,
) -> bool {
    forall|k: int|
        0 <= k < list.len() ==> exists|i: int|
            0 <= i < n && is_active(counters, (#[trigger] members[i]).id) && #[trigger] list[k]
                == standing_of(members[i], counters, baseline)
}

/// Each active member among the first `n` has a standing.
#[verifier::opaque]
spec fn standings_cover(
    members: Seq<MembershipView>,
    counters: CounterStore,
    n: int,
    list: Seq<MemberStandingView>,
) -> bool {
    forall|i: int|
        0 <= i < n && is_active(counters, (#[trigger] members[i]).id) ==> exists|k: int|
            0 <= k < list.len() && (#[trigger] list[k]).member.id == members[i].id
}

/// The standings are in the order of the home page.
spec fn standings_ordered(list: Seq<MemberStandingView>, baseline: int) -> bool {
    forall|k: int, l: int|
        0 <= k < l < list.len() ==> stands_before(#[trigger] list[k], #[trigger] list[l], baseline)
}

/// `after` is `before` with `standing` placed at position `p`.
spec fn standing_placed(
    before: Seq<MemberStandingView>,
    p: int,
    standing: MemberStandingView,
    after: Seq<MemberStandingView>,
) -> bool {
    &&& after.len() == before.len() + 1
    &&& forall|k: int| 0 <= k < p ==> #[trigger] after[k] == before[k]
    &&& after[p] == standing
    &&& forall|k: int| p < k < after.len() ==> #[trigger] after[k] == before[k - 1]
}

proof fn lemma_no_standings(members: Seq<MembershipView>, counters: CounterStore, baseline: int)
    ensures
        standings_drawn(members, counters, baseline, 0, Seq::<MemberStandingView>::empty()),
        standings_cover(members, counters, 0, Seq::<MemberStandingView>::empty()),
        standings_ordered(Seq::<MemberStandingView>::empty(), baseline),
{
    reveal(standings_drawn);
    reveal(standings_cover);
}

/// A member that was not active leaves the standings as they are.
proof fn lemma_standing_skipped(
    members: Seq<MembershipView>,
    counters: CounterStore,
    baseline: int,
    n: int,
    list: Seq<MemberStandingView>,
)
    requires
        0 <= n < members.len(),
        !is_active(counters, members[n].id),
        standings_drawn(members, counters, baseline, n, list),
        standings_cover(members, counters, n, list),
    ensures
        standings_drawn(members, counters, baseline, n + 1, list),
        standings_cover(members, counters, n + 1, list),
{
    assert(standings_drawn(members, counters, baseline, n + 1, list)) by {
        reveal(standings_drawn);
        assert forall|k: int| 0 <= k < list.len() implies exists|i: int|
            0 <= i < n + 1 && is_active(counters, (#[trigger] members[i]).id) && #[trigger] list[k]
                == standing_of(members[i], counters, baseline) by {
            let i = choose|i: int|
                0 <= i < n && is_active(counters, (#[trigger] members[i]).id) && list[k]
                    == standing_of(members[i], counters, baseline);
            assert(0 <= i < n + 1 && is_active(counters, members[i].id));
        }
    }
    assert(standings_cover(members, counters, n + 1, list)) by {
        reveal(standings_cover);
    }
}

/// The placed standing stands behind all that stand before it.
proof fn lemma_standing_order(
    members: Seq<MembershipView>,
    counters: CounterStore,
    baseline: int,
    n: int,
    before: Seq<MemberStandingView>,
    p: int,
    after: Seq<MemberStandingView>,
)
    requires
        0 <= n < members.len(),
        0 <= p <= before.len(),
        distinct_ids(members),
        standings_drawn(members, counters, baseline, n, before),
        standings_ordered(before, baseline),
        standing_placed(before, p, standing_of(members[n], counters, baseline), after),
        forall|q: int|
            0 <= q < p ==> !stands_before(
                standing_of(members[n], counters, baseline),
                #[trigger] before[q],
                baseline,
            ),
        p < before.len() ==> stands_before(
            standing_of(members[n], counters, baseline),
            before[p],
            baseline,
        ),
    ensures
        standings_ordered(after, baseline),
{
    let standing = standing_of(members[n], counters, baseline);
    assert forall|q: int| 0 <= q < p implies stands_before(
        #[trigger] before[q],
        standing,
        baseline,
    ) by {
        reveal(standings_drawn);
        let i = choose|i: int|
            0 <= i < n && is_active(counters, (#[trigger] members[i]).id) && before[q]
                == standing_of(members[i], counters, baseline);
        assert(members[i].id != members[n].id);
    }
    assert forall|k: int, l: int| 0 <= k < l < after.len() implies stands_before(
        #[trigger] after[k],
        #[trigger] after[l],
        baseline,
    ) by {
        if l < p {
            assert(after[k] == before[k] && after[l] == before[l]);
        } else if l == p {
            assert(after[k] == before[k]);
        } else if k == p {
            assert(after[l] == before[l - 1]);
            if l - 1 > p {
                assert(stands_before(before[p], before[l - 1], baseline));
            }
        } else if k < p {
            assert(after[k] == before[k] && after[l] == before[l - 1]);
            if p < l - 1 {
                assert(stands_before(before[p], before[l - 1], baseline));
            }
        } else {
            assert(after[k] == before[k - 1] && after[l] == before[l - 1]);
        }
    }
}

/// The standings with the placed one are those of active members among
/// the first `n + 1`.
proof fn lemma_standing_drawn(
    members: Seq<MembershipView>,
    counters: CounterStore,
    baseline: int,
    n: int,
    before: Seq<MemberStandingView>,
    p: int,
    after: Seq<MemberStandingView>,
)
    requires
        0 <= n < members.len(),
        0 <= p <= before.len(),
        is_active(counters, members[n].id),
        standings_drawn(members, counters, baseline, n, before),
        standing_placed(before, p, standing_of(members[n], counters, baseline), after),
    ensures
        standings_drawn(members, counters, baseline, n + 1, after),
{
    reveal(standings_drawn);
    assert forall|k: int| 0 <= k < after.len() implies exists|i: int|
        0 <= i < n + 1 && is_active(counters, (#[trigger] members[i]).id) && #[trigger] after[k]
            == standing_of(members[i], counters, baseline) by {
        if k == p {
            assert(is_active(counters, members[n].id));
        } else {
            let b = if k < p {
                k
            } else {
                k - 1
            };
            assert(after[k] == before[b]);
            let i = choose|i: int|
                0 <= i < n && is_active(counters, (#[trigger] members[i]).id) && before[b]
                    == standing_of(members[i], counters, baseline);
            assert(0 <= i < n + 1 && is_active(counters, members[i].id));
        }
    }
}

/// The standings with the placed one cover the active members among the
/// first `n + 1`.
proof fn lemma_standing_covers(
    members: Seq<MembershipView>,
    counters: CounterStore,
    baseline: int,
    n: int,
    before: Seq<MemberStandingView>,
    p: int,
    after: Seq<MemberStandingView>,
)
    requires
        0 <= n < members.len(),
        0 <= p <= before.len(),
        standings_cover(members, counters, n, before),
        standing_placed(before, p, standing_of(members[n], counters, baseline), after),
    ensures
        standings_cover(members, counters, n + 1, after),
{
    reveal(standings_cover);
    assert forall|i: int|
        0 <= i < n + 1 && is_active(counters, (#[trigger] members[i]).id) implies exists|k: int|
        0 <= k < after.len() && (#[trigger] after[k]).member.id == members[i].id by {
        if i == n {
            assert(after[p].member.id == members[i].id);
        } else {
            let b = choose|b: int|
                0 <= b < before.len() && (#[trigger] before[b]).member.id == members[i].id;
            let k = if b < p {
                b
            } else {
                b + 1
            };
            assert(after[k] == before[b]);
            assert(after[k].member.id == members[i].id);
        }
    }
}

/// Once every member has been looked at, the standings are the list of
/// the home page.
proof fn lemma_standings_complete(
    members: Seq<MembershipView>,
    counters: CounterStore,
    baseline: int,
    list: Seq<MemberStandingView>,
)
    requires
        distinct_ids(members),
        standings_drawn(members, counters, baseline, members.len() as int, list),
        standings_cover(members, counters, members.len() as int, list),
        standings_ordered(list, baseline),
    ensures
        is_standing_list(members, counters, baseline, list),
{
    assert forall|k: int| 0 <= k < list.len() implies {
        let standing = #[trigger] list[k];
        &&& is_active(counters, standing.member.id)
        &&& member_of_id(members, standing.member.id) == Some(standing.member)
        &&& standing == standing_of(standing.member, counters, baseline)
    } by {
        reveal(standings_drawn);
        let i = choose|i: int|
            0 <= i < members.len() && is_active(counters, (#[trigger] members[i]).id) && list[k]
                == standing_of(members[i], counters, baseline);
        lemma_member_of_id(members, i);
    }
    assert forall|i: int|
        0 <= i < members.len() && is_active(counters, (#[trigger] members[i]).id) implies exists|
        k: int,
    |
        0 <= k < list.len() && (#[trigger] list[k]).member.id == members[i].id by {
        reveal(standings_cover);
    }
}

/// Tells whether `a` stands before `b` on the home page.
fn stands_first(a: &MemberStanding, b: &MemberStanding, baseline: i64) -> (first: bool)
    requires
        baseline >= 1,
        a.unique_visitor >= 0 && a.referrer >= 0,
        b.unique_visitor >= 0 && b.referrer >= 0,
    ensures
        first == stands_before(a@, b@, baseline as int),
{
    let score_a: i128 = (a.unique_visitor as i128 + a.referrer as i128) / (baseline as i128);
    let score_b: i128 = (b.unique_visitor as i128 + b.referrer as i128) / (baseline as i128);
    score_a > score_b || (score_a == score_b && a.member.id < b.member.id)
}

/// First position whose standing `standing` stands before, or the length
/// where there is none.
fn find_standing_place(list: &Vec<MemberStanding>, standing: &MemberStanding, baseline: i64) -> (p:
    usize)
    requires
        baseline >= 1,
        standing.unique_visitor >= 0 && standing.referrer >= 0,
        forall|k: int|
            0 <= k < list.len() ==> (#[trigger] list[k]).unique_visitor >= 0 && list[k].referrer
                >= 0,
    ensures
        p <= list.len(),
        forall|q: int|
            0 <= q < p ==> !stands_before(standing@, (#[trigger] list[q])@, baseline as int),
        p < list.len() ==> stands_before(standing@, list[p as int]@, baseline as int),
{
    let mut p: usize = 0;
    while p < list.len() && !stands_first(standing, &list[p], baseline)
        invariant
            p <= list.len(),
            baseline >= 1,
            standing.unique_visitor >= 0 && standing.referrer >= 0,
            forall|k: int|
                0 <= k < list.len() ==> (#[trigger] list[k]).unique_visitor >= 0
                    && list[k].referrer >= 0,
            forall|q: int|
                0 <= q < p ==> !stands_before(standing@, (#[trigger] list[q])@, baseline as int),
        decreases list.len() - p,
    {
        p = p + 1;
    }
    p
}

/// The standings of the active members in the order of the home page.
pub fn standings(directory: &MemberDirectory, counters: &CounterStore, baseline: i64) -> (list: Vec<
    MemberStanding,
>)
    requires
        directory.wf(),
        counters.wf(),
        baseline >= 1,
    ensures
        is_standing_list(directory@, *counters, baseline as int, standing_views(list@)),
{
    let mut list: Vec<MemberStanding> = Vec::new();
    let mut n: usize = 0;
    proof {
        lemma_no_standings(directory@, *counters, baseline as int);
        assert(standing_views(list@) =~= Seq::<MemberStandingView>::empty());
    }
    while n < directory.len()
        invariant
            n <= directory@.len(),
            directory.wf(),
            counters.wf(),
            baseline >= 1,
            forall|k: int|
                0 <= k < list.len() ==> (#[trigger] list[k]).unique_visitor >= 0
                    && list[k].referrer >= 0,
            standings_drawn(directory@, *counters, baseline as int, n as int, standing_views(list@)),
            standings_cover(directory@, *counters, n as int, standing_views(list@)),
            standings_ordered(standing_views(list@), baseline as int),
        decreases directory@.len() - n,
    {
        let member = directory.member(n);
        let now: Timestamp = 0;
        let unique_visitor: i64 = counters.unique_visitor(member.id, now).count;
        let referrer: i64 = counters.referrer(member.id, now).count;
        if unique_visitor > 0 || referrer > 0 {
            let standing = MemberStanding {
                member: member.duplicate(),
                unique_visitor,
                referrer,
                level: compute_level(unique_visitor, referrer, baseline),
            };
            assert(standing@ == standing_of(directory@[n as int], *counters, baseline as int));
            let p: usize = find_standing_place(&list, &standing, baseline);
            let ghost before = list@;
            let ghost placed_view = standing@;
            list.insert(p, standing);
            proof {
                before.insert_ensures(p as int, list@[p as int]);
                assert forall|k: int| p < k < list@.len() implies #[trigger] list@[k] == before[k
                    - 1] by {
                    assert(list@[(k - 1) + 1] == before[k - 1]);
                }
                assert(standing_placed(
                    standing_views(before),
                    p as int,
                    placed_view,
                    standing_views(list@),
                ));
                lemma_standing_order(
                    directory@,
                    *counters,
                    baseline as int,
                    n as int,
                    standing_views(before),
                    p as int,
                    standing_views(list@),
                );
                lemma_standing_drawn(
                    directory@,
                    *counters,
                    baseline as int,
                    n as int,
                    standing_views(before),
                    p as int,
                    standing_views(list@),
                );
                lemma_standing_covers(
                    directory@,
                    *counters,
                    baseline as int,
                    n as int,
                    standing_views(before),
                    p as int,
                    standing_views(list@),
                );
                assert forall|k: int| 0 <= k < list.len() implies (
                #[trigger] list[k]).unique_visitor >= 0 && list[k].referrer >= 0 by {
                    if k < p {
                        assert(list@[k] == before[k]);
                    } else if k > p {
                        assert(list@[k] == before[k - 1]);
                    }
                }
            }
        } else {
            proof {
                lemma_standing_skipped(
                    directory@,
                    *counters,
                    baseline as int,
                    n as int,
                    standing_views(list@),
                );
            }
        }
        n = n + 1;
    }
    proof {
        lemma_standings_complete(directory@, *counters, baseline as int, standing_views(list@));
    }
    list
}

/// Every standing of `a` is a standing of `b`.
#[verifier::opaque]
spec fn standings_within(a: Seq<MemberStandingView>, b: Seq<MemberStandingView>) -> bool {
    forall|k: int| 0 <= k < a.len() ==> b.contains(#[trigger] a[k])
}

/// Every standing of one list of the home page is a standing of any other
/// list for the same members, counters and baseline.
proof fn lemma_standing_list_within(
    members: Seq<MembershipView>,
    counters: CounterStore,
    baseline: int,
    a: Seq<MemberStandingView>,
    b: Seq<MemberStandingView>,
)
    requires
        is_standing_list(members, counters, baseline, a),
        is_standing_list(members, counters, baseline, b),
    ensures
        standings_within(a, b),
{
    reveal(standings_within);
    assert forall|k: int| 0 <= k < a.len() implies b.contains(#[trigger] a[k]) by {
        let id = a[k].member.id;
        assert(member_of_id(members, id) == Some(a[k].member));
        let i = choose|i: int| 0 <= i < members.len() && (#[trigger] members[i]).id == id;
        let l = choose|l: int| 0 <= l < b.len() && (#[trigger] b[l]).member.id == members[i].id;
        assert(member_of_id(members, b[l].member.id) == Some(b[l].member));
        assert(b[l] == a[k]);
    }
}

/// Behind a common first standing, the standings of `a` are standings of
/// `b`.
proof fn lemma_standings_within_rest(
    a: Seq<MemberStandingView>,
    b: Seq<MemberStandingView>,
    baseline: int,
)
    requires
        standings_ordered(a, baseline),
        standings_within(a, b),
        a.len() > 0,
        b.len() > 0,
        a[0] == b[0],
    ensures
        standings_within(a.subrange(1, a.len() as int), b.subrange(1, b.len() as int)),
{
    reveal(standings_within);
    let a_rest = a.subrange(1, a.len() as int);
    let b_rest = b.subrange(1, b.len() as int);
    assert forall|k: int| 0 <= k < a_rest.len() implies b_rest.contains(#[trigger] a_rest[k]) by {
        assert(stands_before(a[0], a[k + 1], baseline));
        assert(b.contains(a[k + 1]));
        let m = choose|m: int| 0 <= m < b.len() && #[trigger] b[m] == a[k + 1];
        assert(m != 0);
        assert(b_rest[m - 1] == a_rest[k]);
    }
}

/// What stands behind the first of ordered standings is ordered.
proof fn lemma_standings_ordered_rest(a: Seq<MemberStandingView>, baseline: int)
    requires
        standings_ordered(a, baseline),
        a.len() > 0,
    ensures
        standings_ordered(a.subrange(1, a.len() as int), baseline),
{
    let a_rest = a.subrange(1, a.len() as int);
    assert forall|k: int, l: int| 0 <= k < l < a_rest.len() implies stands_before(
        #[trigger] a_rest[k],
        #[trigger] a_rest[l],
        baseline,
    ) by {
        assert(stands_before(a[k + 1], a[l + 1], baseline));
    }
}

/// A standing of `b` that equals a given standing of `a`.
proof fn lemma_standing_pick(a: Seq<MemberStandingView>, b: Seq<MemberStandingView>, k: int) -> (m:
    int)
    requires
        standings_within(a, b),
        0 <= k < a.len(),
    ensures
        0 <= m < b.len(),
        b[m] == a[k],
{
    reveal(standings_within);
    assert(b.contains(a[k]));
    choose|m: int| 0 <= m < b.len() && #[trigger] b[m] == a[k]
}

/// Two ordered lists that hold the same standings are equal.
proof fn lemma_ordered_same_standings(
    a: Seq<MemberStandingView>,
    b: Seq<MemberStandingView>,
    baseline: int,
)
    requires
        standings_ordered(a, baseline),
        standings_ordered(b, baseline),
        standings_within(a, b),
        standings_within(b, a),
    ensures
        a == b,
    decreases a.len(),
{
    if a.len() == 0 {
        if b.len() > 0 {
            let k = lemma_standing_pick(b, a, 0);
        }
        assert(a =~= b);
    } else {
        let j = lemma_standing_pick(a, b, 0);
        let k = lemma_standing_pick(b, a, 0);
        if j > 0 {
            assert(stands_before(b[0], b[j], baseline));
            if k > 0 {
                assert(stands_before(a[0], a[k], baseline));
            }
        }
        assert(a[0] == b[0]);
        let a_rest = a.subrange(1, a.len() as int);
        let b_rest = b.subrange(1, b.len() as int);
        lemma_standings_ordered_rest(a, baseline);
        lemma_standings_ordered_rest(b, baseline);
        lemma_standings_within_rest(a, b, baseline);
        lemma_standings_within_rest(b, a, baseline);
        lemma_ordered_same_standings(a_rest, b_rest, baseline);
        assert(a =~= b) by {
            assert(a.len() == a_rest.len() + 1);
            assert(b.len() == b_rest.len() + 1);
            assert forall|i: int| 0 <= i < a.len() implies a[i] == b[i] by {
                if i > 0 {
                    assert(a_rest[i - 1] == a[i]);
                    assert(b_rest[i - 1] == b[i]);
                }
            }
        }
    }
}

/// The list of the home page is unique: members, counters and baseline
/// admit one list of standings and no other.
pub proof fn lemma_standing_list_unique(
    members: Seq<MembershipView>,
    counters: CounterStore,
    baseline: int,
    a: Seq<MemberStandingView>,
    b: Seq<MemberStandingView>,
)
    requires
        is_standing_list(members, counters, baseline, a),
        is_standing_list(members, counters, baseline, b),
    ensures
        a == b,
{
    lemma_standing_list_within(members, counters, baseline, a, b);
    lemma_standing_list_within(members, counters, baseline, b, a);
    lemma_ordered_same_standings(a, b, baseline);
}

/// What the home page lists.
#[derive(Clone, Debug)]
pub struct HomePage {
    /// The members active today, the most active first.
    pub membership: Vec<MemberStanding>,
    /// The first ten members of the thirty-day ranking that were updated
    /// within those days.
    pub rank: Vec<RankAndMembership>,
    /// The members of the all-time ranking that were last updated before
    /// the trailing thirty days.
    pub to_be_remove: Vec<RankAndMembership>,
}

/// Computes what the home page lists at the instant `now`.
pub fn home_page(context: &Context, now: Timestamp) -> (page: HomePage)
    requires
        context.wf(),
    ensures
        is_standing_list(
            context.members(),
            context.counters(),
            context.baseline(),
            standing_views(page.membership@),
        ),
        ranked_views(page.rank@) == shelved(
            context.monthly_rank(),
            context.members(),
            Shelf::Fresh,
            now as int,
            FEATURED as int,
        ),
        ranked_views(page.to_be_remove@) == shelved(
            context.rank(),
            context.members(),
            Shelf::Stale,
            now as int,
            usize::MAX as int,
        ),
{
    proof {
        context.lemma_wf();
    }
    let directory = context.directory();
    let rankings = context.current_rankings();
    HomePage {
        membership: standings(directory, context.counter_store(), context.rank_svg()),
        rank: shelve(directory, rankings.1, Shelf::Fresh, now, FEATURED),
        to_be_remove: shelve(directory, rankings.0, Shelf::Stale, now, usize::MAX),
    }
}

} // verus!
