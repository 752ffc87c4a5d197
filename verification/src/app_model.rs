//! The engine: the member directory, today's counters, the baseline, the
//! two rankings and the dedup cache, owned by one value.

use crate::boring_face::BoringFace;
use crate::clock::{trailing_start, trailing_window_start, Timestamp};
use crate::counter_store::{
    bumped, count_in, next_count, non_negative, seeded_referrers, seeded_unique_visitors,
    CounterEntry, CounterStore,
};
use crate::dedup::DedupCache;
use crate::engagement::{compute_level, level};
use crate::membership_model::{
    directory_from, member_of_domain, MemberDirectory, Membership, MembershipView,
};
use crate::ranking::{is_ranking, sums_fit, RankError};
use crate::redact::{announce, event_of, VisitEvent};
use crate::statistics_model::{baseline_of, Statistics};
use crate::visitor::visitor_key;
use vstd::prelude::*;
use vstd::string::StringExecFns;

pub use crate::visitor::VisitorType;

verus! {

/// Why a visit was not recorded.
#[derive(Clone, Copy, Debug, PartialEq, Eq, Structural)]
pub enum VisitError {
    /// The referring site is the directory itself.
    SystemDomain,
    /// No member answers for the domain.
    NotAMember,
}

impl VisitError {
    /// The error in words.
    pub fn message(&self) -> (text: String)
        ensures
            text@ == (match *self {
                VisitError::SystemDomain => "system domain"@,
                VisitError::NotAMember => "not a member"@,
            }),
    {
        match self {
            VisitError::SystemDomain => String::from_str("system domain"),
            VisitError::NotAMember => String::from_str("not a member"),
        }
    }
}

/// What a recorded visit gives back: the member's name, its two counts as
/// they stand after the visit, its level, whether the visit was fresh (the
/// dedup cache did not answer for it), and the event to publish, if any.
#[derive(Clone, Debug)]
pub struct Visit {
    pub name: String,
    pub unique_visitor: i64,
    pub referrer: i64,
    pub level: i64,
    pub fresh: bool,
    pub event: Option<VisitEvent>,
}

/// A fresh visit of this kind adds a unique visitor.
pub open spec fn counts_unique_visitor(kind: VisitorType, fresh: bool) -> bool {
    fresh && kind == VisitorType::Badge
}

/// A fresh visit of this kind adds a referrer.
pub open spec fn counts_referrer(kind: VisitorType, fresh: bool) -> bool {
    fresh && kind == VisitorType::Referrer
}

/// A fresh visit of this kind is announced to live subscribers.
pub open spec fn is_announced(kind: VisitorType, fresh: bool) -> bool {
    fresh && kind == VisitorType::Badge
}

/// The unique-visitor entries after a visit of the given kind to `id`.
pub open spec fn unique_visitors_after(
    counters: Map<i64, CounterEntry>,
    kind: VisitorType,
    id: i64,
    fresh: bool,
    now: Timestamp,
) -> Map<i64, CounterEntry> {
    if counts_unique_visitor(kind, fresh) {
        bumped(counters, id, now)
    } else {
        counters
    }
}

/// The referrer entries after a visit of the given kind to `id`.
pub open spec fn referrers_after(
    counters: Map<i64, CounterEntry>,
    kind: VisitorType,
    id: i64,
    fresh: bool,
    now: Timestamp,
) -> Map<i64, CounterEntry> {
    if counts_referrer(kind, fresh) {
        bumped(counters, id, now)
    } else {
        counters
    }
}

/// A visit and its repeat count once: where the first of two visits of
/// one visitor to one member is fresh and the second is recognised as a
/// repeat, the counter that the kind of visit feeds ends one higher, and
/// the other counter ends as it began.
pub proof fn lemma_repeat_counts_once(
    unique_visitors: Map<i64, CounterEntry>,
    referrers: Map<i64, CounterEntry>,
    kind: VisitorType,
    id: i64,
    first: Timestamp,
    second: Timestamp,
)
    ensures
        count_in(
            unique_visitors_after(
                unique_visitors_after(unique_visitors, kind, id, true, first),
                kind,
                id,
                false,
                second,
            ),
            id,
        ) == (if kind == VisitorType::Badge {
            next_count(count_in(unique_visitors, id))
        } else {
            count_in(unique_visitors, id)
        }),
        count_in(
            referrers_after(referrers_after(referrers, kind, id, true, first), kind, id, false, second),
            id,
        ) == (if kind == VisitorType::Referrer {
            next_count(count_in(referrers, id))
        } else {
            count_in(referrers, id)
        }),
{
}

/// Within a day no visit lowers a count, whatever its kind, its member
/// and the dedup cache's answer.
pub proof fn lemma_visit_never_lowers(
    unique_visitors: Map<i64, CounterEntry>,
    referrers: Map<i64, CounterEntry>,
    kind: VisitorType,
    id: i64,
    fresh: bool,
    now: Timestamp,
    other: i64,
)
    requires
        non_negative(unique_visitors),
        non_negative(referrers),
    ensures
        count_in(unique_visitors_after(unique_visitors, kind, id, fresh, now), other) >= count_in(
            unique_visitors,
            other,
        ),
        count_in(referrers_after(referrers, kind, id, fresh, now), other) >= count_in(
            referrers,
            other,
        ),
{
}

/// Whether a visit of the given kind to `domain` is taken, and if not, why:
/// a referral from the directory's own domain is refused, and so is a
/// domain that no member answers for.
pub open spec fn admission(
    members: Seq<MembershipView>,
    system_domain: Seq<char>,
    kind: VisitorType,
    domain: Seq<char>,
) -> Result<MembershipView, VisitError> {
    if kind == VisitorType::Referrer && domain == system_domain {
        Err(VisitError::SystemDomain)
    } else {
        match member_of_domain(members, domain) {
            Some(member) => Ok(member),
            None => Err(VisitError::NotAMember),
        }
    }
}

/// The baseline that the engine takes for a proposed one: at least one.
pub open spec fn floored(baseline: i64) -> i64 {
    if baseline < 1 {
        1
    } else {
        baseline
    }
}

/// The entry of `id` in `counters`; without one, a count of zero as of
/// `now`.
pub open spec fn entry_or_zero(counters: Map<i64, CounterEntry>, id: i64, now: Timestamp) -> CounterEntry {
    if counters.contains_key(id) {
        counters[id]
    } else {
        CounterEntry { count: 0, last_event_at: now }
    }
}

/// The row that persists the counters of `id` under the day `today`.
pub open spec fn flush_record(counters: CounterStore, id: i64, today: Timestamp, now: Timestamp) -> Statistics {
    let unique_visitor = entry_or_zero(counters.unique_visitors(), id, now);
    let referrer = entry_or_zero(counters.referrers(), id, now);
    Statistics {
        id: 0,
        created_at: today,
        updated_at: unique_visitor.last_event_at,
        membership_id: id,
        unique_visitor: unique_visitor.count,
        referrer: referrer.count,
        latest_referrer_at: referrer.last_event_at,
    }
}

/// The rows to persist for those of the first `n` members whose counts
/// differ from the ones last persisted, in the order of the members.
pub open spec fn pending_upto(
    members: Seq<MembershipView>,
    n: int,
    counters: CounterStore,
    flushed: CounterStore,
    today: Timestamp,
    now: Timestamp,
) -> Seq<Statistics>
    decreases n,
{
    if n <= 0 {
        Seq::<Statistics>::empty()
    } else {
        let earlier = pending_upto(members, n - 1, counters, flushed, today, now);
        let id = members[n - 1].id;
        if counters.differs_from(&flushed, id) {
            earlier.push(flush_record(counters, id, today, now))
        } else {
            earlier
        }
    }
}

/// One row per member, whether its counts changed or not.
pub open spec fn all_records(
    members: Seq<MembershipView>,
    counters: CounterStore,
    today: Timestamp,
    now: Timestamp,
) -> Seq<Statistics> {
    Seq::new(members.len(), |i: int| flush_record(counters, members[i].id, today, now))
}

/// The engine's state.
pub struct Context {
    badge: BoringFace,
    favicon: BoringFace,
    icon: BoringFace,
    counters: CounterStore,
    rank_svg: i64,
    directory: MemberDirectory,
    system_domain: String,
    rank: Vec<Statistics>,
    monthly_rank: Vec<Statistics>,
    cache: DedupCache,
}

impl Context {
    /// The style of the framed badge.
    pub closed spec fn badge_style(&self) -> BoringFace {
        self.badge
    }

    /// The style of the bare face in inverted colours.
    pub closed spec fn favicon_style(&self) -> BoringFace {
        self.favicon
    }

    /// The style of the bare face.
    pub closed spec fn icon_style(&self) -> BoringFace {
        self.icon
    }

    /// Today's counters.
    pub closed spec fn counters(&self) -> CounterStore {
        self.counters
    }

    /// The baseline: the activity that one level stands for.
    pub closed spec fn baseline(&self) -> int {
        self.rank_svg as int
    }

    /// The members, in the order of loading.
    pub closed spec fn members(&self) -> Seq<MembershipView> {
        self.directory@
    }

    /// The domain of the directory itself.
    pub closed spec fn system_domain(&self) -> Seq<char> {
        self.system_domain@
    }

    /// The all-time ranking as last computed.
    pub closed spec fn rank(&self) -> Seq<Statistics> {
        self.rank@
    }

    /// The ranking of the trailing thirty days as last computed.
    pub closed spec fn monthly_rank(&self) -> Seq<Statistics> {
        self.monthly_rank@
    }

    /// The keys of the visits that the dedup cache holds.
    pub closed spec fn seen(&self) -> Set<Seq<char>> {
        self.cache.keys()
    }

    /// The engine is well formed: counts are not negative, members have
    /// distinct identifiers, and the baseline is at least one.
    pub closed spec fn wf(&self) -> bool {
        &&& self.counters.wf()
        &&& self.directory.wf()
        &&& self.rank_svg >= 1
    }

    /// What a well-formed engine guarantees to those who see it from
    /// outside.
    pub proof fn lemma_wf(&self)
        requires
            self.wf(),
        ensures
            self.counters().wf(),
            crate::membership_model::distinct_ids(self.members()),
            self.baseline() >= 1,
    {
    }

    /// The engine draws the three standard badges: the framed badge and
    /// the bare face in red on pink, and the bare face in pink on red.
    pub open spec fn has_standard_faces(&self) -> bool {
        &&& self.badge_style().fill_white() == "#d0273e"@
        &&& self.badge_style().fill_black() == "#f5acb9"@
        &&& self.badge_style().with_border()
        &&& self.favicon_style().fill_white() == "#f5acb9"@
        &&& self.favicon_style().fill_black() == "#d0273e"@
        &&& !self.favicon_style().with_border()
        &&& self.icon_style().fill_white() == "#d0273e"@
        &&& self.icon_style().fill_black() == "#f5acb9"@
        &&& !self.icon_style().with_border()
    }

    /// Both engines draw their badges alike.
    pub open spec fn same_faces(&self, other: &Context) -> bool {
        &&& self.badge_style() == other.badge_style()
        &&& self.favicon_style() == other.favicon_style()
        &&& self.icon_style() == other.icon_style()
    }

    /// Both engines agree in all but the counters and the dedup cache.
    pub open spec fn same_setting(&self, other: &Context) -> bool {
        &&& self.same_faces(other)
        &&& self.members() == other.members()
        &&& self.baseline() == other.baseline()
        &&& self.system_domain() == other.system_domain()
        &&& self.rank() == other.rank()
        &&& self.monthly_rank() == other.monthly_rank()
    }

    /// The engagement level of a member with the given counts.
    pub fn get_tend_from_uv_and_rv(&self, uv: i64, rv: i64) -> (tend: i64)
        requires
            self.wf(),
        ensures
            tend == level(uv as int, rv as int, self.baseline()),
            1 <= tend <= 10,
    {
        compute_level(uv, rv, self.rank_svg)
    }

    /// Applies a visit of the given kind to the counters of the member
    /// `id`: a fresh referrer visit adds a referrer, a fresh badge
    /// visit adds a unique visitor, and any other visit adds nothing.
    /// Returns the member's unique visitors and referrers after that.
    pub fn count_visit(&mut self, v_type: VisitorType, id: i64, fresh: bool, now: Timestamp) -> (counts:
        (i64, i64))
        requires
            old(self).wf(),
        ensures
            final(self).wf(),
            final(self).same_setting(old(self)),
            final(self).seen() == old(self).seen(),
            final(self).counters().unique_visitors() == unique_visitors_after(
                old(self).counters().unique_visitors(),
                v_type,
                id,
                fresh,
                now,
            ),
            final(self).counters().referrers() == referrers_after(
                old(self).counters().referrers(),
                v_type,
                id,
                fresh,
                now,
            ),
            counts.0 == final(self).counters().unique_visitor_count(id),
            counts.1 == final(self).counters().referrer_count(id),
            forall|other: i64|
                final(self).counters().unique_visitor_count(other) >= old(self).counters().unique_visitor_count(other) && final(self).counters().referrer_count(
                    other,
                ) >= old(self).counters().referrer_count(other),
    {
        if fresh {
            match v_type {
                VisitorType::Referrer => {
                    return self.counters.record_referrer(id, now);
                },
                VisitorType::Badge => {
                    return self.counters.record_unique_visitor(id, now);
                },
                VisitorType::ICON => {},
            }
        }
        (self.counters.unique_visitor(id, now).count, self.counters.referrer(id, now).count)
    }

    /// Decides whether a visit of the kind `v_type` to `domain` is taken;
    /// where it is, returns the position of the member in the directory.
    pub fn check_visit(&self, v_type: VisitorType, domain: &str) -> (outcome: Result<usize, VisitError>)
        ensures
            match outcome {
                Ok(position) => position < self.members().len() && admission(
                    self.members(),
                    self.system_domain(),
                    v_type,
                    domain@,
                ) == Ok::<MembershipView, VisitError>(self.members()[position as int]),
                Err(refusal) => admission(self.members(), self.system_domain(), v_type, domain@)
                    == Err::<MembershipView, VisitError>(refusal),
            },
    {
        if matches!(v_type, VisitorType::Referrer) {
            let wanted = String::from_str(domain);
            if wanted == self.system_domain {
                return Err(VisitError::SystemDomain);
            }
        }
        match self.directory.position_of_domain(domain) {
            Some(position) => Ok(position),
            None => Err(VisitError::NotAMember),
        }
    }

    /// Records a visit of the kind `v_type` to the site `domain` by the
    /// visitor at `ip` in `country`.
    ///
    /// A visit that is not admitted changes nothing. Otherwise the dedup
    /// cache is asked whether the visit counts, and remembers it; the
    /// counters move as [`Context::count_visit`] says; and a fresh badge
    /// visit, and no other, comes with an event for live subscribers.
    pub fn boring_visitor(
        &mut self,
        v_type: VisitorType,
        domain: &str,
        ip: &str,
        country: &str,
        now: Timestamp,
    ) -> (outcome: Result<Visit, VisitError>)
        requires
            old(self).wf(),
        ensures
            final(self).wf(),
            final(self).same_setting(old(self)),
            match outcome {
                Err(refusal) => {
                    &&& admission(old(self).members(), old(self).system_domain(), v_type, domain@)
                        == Err::<MembershipView, VisitError>(refusal)
                    &&& final(self).counters() == old(self).counters()
                    &&& final(self).seen() == old(self).seen()
                },
                Ok(visit) => {
                    let admitted = admission(
                        old(self).members(),
                        old(self).system_domain(),
                        v_type,
                        domain@,
                    );
                    let member = admitted->Ok_0;
                    let key = visitor_key(ip@, member.id, v_type);
                    &&& admitted is Ok
                    &&& final(self).seen() == old(self).seen().insert(key)
                    &&& !visit.fresh ==> old(self).seen().contains(key)
                    &&& final(self).counters().unique_visitors() == unique_visitors_after(
                        old(self).counters().unique_visitors(),
                        v_type,
                        member.id,
                        visit.fresh,
                        now,
                    )
                    &&& final(self).counters().referrers() == referrers_after(
                        old(self).counters().referrers(),
                        v_type,
                        member.id,
                        visit.fresh,
                        now,
                    )
                    &&& visit.name@ == member.name
                    &&& visit.unique_visitor == final(self).counters().unique_visitor_count(
                        member.id,
                    )
                    &&& visit.referrer == final(self).counters().referrer_count(member.id)
                    &&& visit.level == level(
                        visit.unique_visitor as int,
                        visit.referrer as int,
                        old(self).baseline(),
                    )
                    &&& visit.event is Some <==> is_announced(v_type, visit.fresh)
                    &&& visit.event matches Some(event) ==> event@ == event_of(
                        ip@,
                        country@,
                        member,
                    )
                },
            },
            forall|other: i64|
                final(self).counters().unique_visitor_count(other) >= old(self).counters().unique_visitor_count(other) && final(self).counters().referrer_count(
                    other,
                ) >= old(self).counters().referrer_count(other),
    {
        let position = match self.check_visit(v_type, domain) {
            Ok(position) => position,
            Err(refusal) => {
                return Err(refusal);
            },
        };
        let id: i64 = self.directory.member(position).id;
        let fresh = self.cache.should_count(ip, id, v_type);
        let counts = self.count_visit(v_type, id, fresh, now);
        let tend = compute_level(counts.0, counts.1, self.rank_svg);
        let member = self.directory.member(position);
        let event = if fresh && matches!(v_type, VisitorType::Badge) {
            Some(announce(ip, country, member))
        } else {
            None
        };
        Ok(
            Visit {
                name: member.name.clone(),
                unique_visitor: counts.0,
                referrer: counts.1,
                level: tend,
                fresh,
                event,
            },
        )
    }
}

impl Context {
    /// An engine with the given rankings and baseline: counters seeded
    /// from today's persisted rows, the directory built from the loaded
    /// members, and an empty dedup cache. A baseline below one is taken as
    /// one.
    pub fn new(
        statistics: &Vec<Statistics>,
        membership: &Vec<(i64, Membership)>,
        rank: Vec<Statistics>,
        monthly_rank: Vec<Statistics>,
        rank_svg: i64,
        system_domain: String,
    ) -> (context: Context)
        ensures
            context.wf(),
            context.counters().unique_visitors() == seeded_unique_visitors(
                statistics@,
                statistics.len() as int,
            ),
            context.counters().referrers() == seeded_referrers(
                statistics@,
                statistics.len() as int,
            ),
            context.members() == directory_from(membership@),
            context.rank() == rank@,
            context.monthly_rank() == monthly_rank@,
            context.baseline() == floored(rank_svg),
            context.system_domain() == system_domain@,
            context.seen() == Set::<Seq<char>>::empty(),
            context.has_standard_faces(),
    {
        Context {
            badge: BoringFace::new(String::from_str("#d0273e"), String::from_str("#f5acb9"), true),
            favicon: BoringFace::new(
                String::from_str("#f5acb9"),
                String::from_str("#d0273e"),
                false,
            ),
            icon: BoringFace::new(String::from_str("#d0273e"), String::from_str("#f5acb9"), false),
            counters: CounterStore::from_rows(statistics),
            rank_svg: if rank_svg < 1 {
                1
            } else {
                rank_svg
            },
            directory: MemberDirectory::load(membership),
            system_domain,
            rank,
            monthly_rank,
            cache: DedupCache::new(),
        }
    }

    /// The engine at startup, from what was persisted: counters seeded
    /// from today's rows, the directory built from the loaded members, both
    /// rankings computed from the whole history as of `now`, the baseline
    /// computed from what loading the previous day's rows gave, and an
    /// empty dedup cache. There is no engine where a ranking cannot be
    /// computed.
    pub fn default(
        statistics: &Vec<Statistics>,
        membership: &Vec<(i64, Membership)>,
        history: &Vec<Statistics>,
        previous_day: &Option<Vec<Statistics>>,
        now: Timestamp,
        system_domain: String,
    ) -> (outcome: Result<Context, RankError>)
        ensures
            outcome is Ok <==> sums_fit(history@, 0, now as int) && sums_fit(
                history@,
                trailing_window_start_of(now),
                now as int,
            ),
            outcome matches Ok(context) ==> {
                &&& context.wf()
                &&& context.counters().unique_visitors() == seeded_unique_visitors(
                    statistics@,
                    statistics.len() as int,
                )
                &&& context.counters().referrers() == seeded_referrers(
                    statistics@,
                    statistics.len() as int,
                )
                &&& context.members() == directory_from(membership@)
                &&& is_ranking(history@, 0, now as int, context.rank())
                &&& is_ranking(
                    history@,
                    trailing_window_start_of(now),
                    now as int,
                    context.monthly_rank(),
                )
                &&& context.baseline() == (match *previous_day {
                    Some(rows) => baseline_of(rows@),
                    None => 1,
                })
                &&& context.system_domain() == system_domain@
                &&& context.seen() == Set::<Seq<char>>::empty()
                &&& context.has_standard_faces()
            },
    {
        let rank = Statistics::rank_between(history, 0, now)?;
        let monthly_rank = Statistics::rank_between(history, trailing_window_start(now), now)?;
        let rank_svg = Statistics::prev_day_rank_avg(previous_day);
        Ok(Context::new(statistics, membership, rank, monthly_rank, rank_svg, system_domain))
    }

    /// Takes the baseline that the previous day's rows give; one where
    /// they could not be loaded.
    pub fn recompute_baseline(&mut self, previous_day: &Option<Vec<Statistics>>)
        requires
            old(self).wf(),
        ensures
            final(self).wf(),
            final(self).baseline() == (match *previous_day {
                Some(rows) => baseline_of(rows@),
                None => 1,
            }),
            final(self).same_faces(old(self)),
            final(self).counters() == old(self).counters(),
            final(self).seen() == old(self).seen(),
            final(self).members() == old(self).members(),
            final(self).system_domain() == old(self).system_domain(),
            final(self).rank() == old(self).rank(),
            final(self).monthly_rank() == old(self).monthly_rank(),
    {
        self.rank_svg = Statistics::prev_day_rank_avg(previous_day);
    }

    /// The framed badge.
    pub fn badge(&self) -> (face: &BoringFace)
        ensures
            *face == self.badge_style(),
    {
        &self.badge
    }

    /// The bare face in inverted colours.
    pub fn favicon(&self) -> (face: &BoringFace)
        ensures
            *face == self.favicon_style(),
    {
        &self.favicon
    }

    /// The bare face.
    pub fn icon(&self) -> (face: &BoringFace)
        ensures
            *face == self.icon_style(),
    {
        &self.icon
    }

    /// The baseline.
    pub fn rank_svg(&self) -> (baseline: i64)
        ensures
            baseline == self.baseline(),
    {
        self.rank_svg
    }

    /// The member directory.
    pub fn directory(&self) -> (directory: &MemberDirectory)
        ensures
            directory@ == self.members(),
    {
        &self.directory
    }

    /// Today's counters.
    pub fn counter_store(&self) -> (counters: &CounterStore)
        ensures
            *counters == self.counters(),
    {
        &self.counters
    }

    /// The two rankings as last computed: all-time, and the trailing
    /// thirty days.
    pub fn current_rankings(&self) -> (rankings: (&Vec<Statistics>, &Vec<Statistics>))
        ensures
            rankings.0@ == self.rank(),
            rankings.1@ == self.monthly_rank(),
    {
        (&self.rank, &self.monthly_rank)
    }

    /// Takes a new baseline; one below one is taken as one.
    pub fn set_rank_svg(&mut self, baseline: i64)
        requires
            old(self).wf(),
        ensures
            final(self).wf(),
            final(self).baseline() == floored(baseline),
            final(self).same_faces(old(self)),
            final(self).counters() == old(self).counters(),
            final(self).seen() == old(self).seen(),
            final(self).members() == old(self).members(),
            final(self).system_domain() == old(self).system_domain(),
            final(self).rank() == old(self).rank(),
            final(self).monthly_rank() == old(self).monthly_rank(),
    {
        self.rank_svg = if baseline < 1 {
            1
        } else {
            baseline
        };
    }

    /// Computes both rankings anew from the persisted rows: the all-time
    /// ranking over the days from 1970 up to `now`, and the ranking of
    /// the thirty days that end at `now`. Where either cannot be computed
    /// both stay as they are.
    pub fn refresh_rankings(&mut self, rows: &Vec<Statistics>, now: Timestamp) -> (outcome: Result<
        (),
        RankError,
    >)
        requires
            old(self).wf(),
        ensures
            final(self).wf(),
            final(self).same_faces(old(self)),
            final(self).counters() == old(self).counters(),
            final(self).seen() == old(self).seen(),
            final(self).members() == old(self).members(),
            final(self).baseline() == old(self).baseline(),
            final(self).system_domain() == old(self).system_domain(),
            outcome is Ok <==> sums_fit(rows@, 0, now as int) && sums_fit(
                rows@,
                trailing_window_start_of(now),
                now as int,
            ),
            outcome is Ok ==> is_ranking(rows@, 0, now as int, final(self).rank()) && is_ranking(
                rows@,
                trailing_window_start_of(now),
                now as int,
                final(self).monthly_rank(),
            ),
            outcome is Err ==> final(self).rank() == old(self).rank() && final(self).monthly_rank()
                == old(self).monthly_rank(),
    {
        let all_time = Statistics::rank_between(rows, 0, now)?;
        let monthly = Statistics::rank_between(rows, trailing_window_start(now), now)?;
        self.rank = all_time;
        self.monthly_rank = monthly;
        Ok(())
    }

    /// Starts a new day: every count is zero and the dedup cache is
    /// empty, so that each visitor counts once more.
    pub fn rollover(&mut self)
        requires
            old(self).wf(),
        ensures
            final(self).wf(),
            final(self).same_setting(old(self)),
            final(self).counters().unique_visitors() == Map::<i64, CounterEntry>::empty(),
            final(self).counters().referrers() == Map::<i64, CounterEntry>::empty(),
            forall|id: i64|
                final(self).counters().unique_visitor_count(id) == 0 && final(self).counters().referrer_count(id) == 0,
            final(self).seen() == Set::<Seq<char>>::empty(),
    {
        self.counters.reset_all();
        self.cache.clear();
    }

    /// The row that persists the counters of `id` under the day `today`.
    pub fn record_of(&self, id: i64, today: Timestamp, now: Timestamp) -> (row: Statistics)
        ensures
            row == flush_record(self.counters(), id, today, now),
    {
        let unique_visitor = self.counters.unique_visitor(id, now);
        let referrer = self.counters.referrer(id, now);
        Statistics {
            id: 0,
            created_at: today,
            updated_at: unique_visitor.last_event_at,
            membership_id: id,
            unique_visitor: unique_visitor.count,
            referrer: referrer.count,
            latest_referrer_at: referrer.last_event_at,
        }
    }

    /// The rows to persist now: one for each member whose counts differ
    /// from the ones in `flushed`, in the order of the directory.
    pub fn pending_records(&self, flushed: &CounterStore, today: Timestamp, now: Timestamp) -> (rows:
        Vec<Statistics>)
        ensures
            rows@ == pending_upto(
                self.members(),
                self.members().len() as int,
                self.counters(),
                *flushed,
                today,
                now,
            ),
    {
        let mut rows: Vec<Statistics> = Vec::new();
        let mut n: usize = 0;
        while n < self.directory.len()
            invariant
                n <= self.directory@.len(),
                rows@ == pending_upto(
                    self.directory@,
                    n as int,
                    self.counters,
                    *flushed,
                    today,
                    now,
                ),
            decreases self.directory@.len() - n,
        {
            let id: i64 = self.directory.member(n).id;
            if self.counters.changed(flushed, id) {
                rows.push(self.record_of(id, today, now));
            }
            n = n + 1;
        }
        rows
    }

    /// The rows to persist at shutdown: one for every member.
    pub fn final_records(&self, today: Timestamp, now: Timestamp) -> (rows: Vec<Statistics>)
        ensures
            rows@ == all_records(self.members(), self.counters(), today, now),
    {
        let mut rows: Vec<Statistics> = Vec::new();
        let mut n: usize = 0;
        while n < self.directory.len()
            invariant
                n <= self.directory@.len(),
                rows@.len() == n,
                forall|i: int|
                    0 <= i < n ==> #[trigger] rows@[i] == flush_record(
                        self.counters,
                        self.directory@[i].id,
                        today,
                        now,
                    ),
            decreases self.directory@.len() - n,
        {
            let id: i64 = self.directory.member(n).id;
            rows.push(self.record_of(id, today, now));
            n = n + 1;
        }
        assert(rows@ =~= all_records(self.members(), self.counters(), today, now));
        rows
    }
}

/// Start of the thirty days that end at `now`, as far as timestamps reach.
pub open spec fn trailing_window_start_of(now: Timestamp) -> int {
    if trailing_start(now as int) >= i64::MIN {
        trailing_start(now as int)
    } else {
        i64::MIN as int
    }
}

} // verus!
