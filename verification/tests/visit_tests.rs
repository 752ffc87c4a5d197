use naive::app_model::{Context, VisitError, VisitorType};
use naive::dedup::DedupCache;
use naive::membership_model::Membership;
use naive::redact::{announce, mask_ip, masked_or_hidden, visit_event};
use naive::statistics_model::Statistics;
use naive::visitor::make_visitor_key;

fn member(domain: &str, name: &str) -> Membership {
    Membership {
        id: 0,
        domain: domain.to_string(),
        name: name.to_string(),
        icon: "icon.png".to_string(),
        description: "about".to_string(),
        github_username: "someone".to_string(),
        hidden: None,
    }
}

fn engine(baseline: i64) -> Context {
    let members = vec![(1, member("a.example", "Site A")), (2, member("b.example", "Site B"))];
    Context::new(
        &Vec::new(),
        &members,
        Vec::new(),
        Vec::new(),
        baseline,
        "ring.example".to_string(),
    )
}

fn counts(context: &Context, id: i64) -> (i64, i64) {
    (
        context.counter_store().unique_visitor(id, 0).count,
        context.counter_store().referrer(id, 0).count,
    )
}

#[test]
fn visitor_key_joins_fingerprint_member_and_kind() {
    assert_eq!(make_visitor_key("1.2.3.4", 7, VisitorType::Badge), "1.2.3.4_7_Badge");
    assert_eq!(make_visitor_key("::1", -3, VisitorType::Referrer), "::1_-3_Referrer");
    assert_eq!(make_visitor_key("", 0, VisitorType::ICON), "_0_ICON");
    assert_eq!(VisitorType::ICON.name(), "ICON");
}

#[test]
fn dedup_counts_a_visit_once() {
    let mut cache = DedupCache::new();
    assert!(cache.should_count("1.2.3.4", 1, VisitorType::Badge));
    assert!(!cache.should_count("1.2.3.4", 1, VisitorType::Badge));
    assert!(!cache.should_count("1.2.3.4", 1, VisitorType::Badge));
}

#[test]
fn dedup_keeps_kinds_members_and_visitors_apart() {
    let mut cache = DedupCache::new();
    assert!(cache.should_count("1.2.3.4", 1, VisitorType::Badge));
    assert!(cache.should_count("1.2.3.4", 1, VisitorType::Referrer));
    assert!(cache.should_count("1.2.3.4", 1, VisitorType::ICON));
    assert!(cache.should_count("1.2.3.4", 2, VisitorType::Badge));
    assert!(cache.should_count("1.2.3.5", 1, VisitorType::Badge));
    assert!(!cache.should_count("1.2.3.4", 1, VisitorType::Referrer));
    assert!(!cache.should_count("1.2.3.4", 2, VisitorType::Badge));
}

#[test]
fn dedup_forgets_everything_when_cleared() {
    let mut cache = DedupCache::new();
    assert!(cache.should_count("1.2.3.4", 1, VisitorType::Badge));
    cache.clear();
    assert!(cache.should_count("1.2.3.4", 1, VisitorType::Badge));
    assert!(!cache.should_count("1.2.3.4", 1, VisitorType::Badge));
}

#[test]
fn dotted_addresses_keep_their_first_and_last_group() {
    assert_eq!(mask_ip("192.168.1.77"), "192.****.77");
    assert_eq!(mask_ip("10.0.0.1"), "10.****.1");
}

#[test]
fn colon_addresses_keep_their_first_and_last_two_groups() {
    assert_eq!(mask_ip("2001:db8:85a3:0:0:8a2e:370:7334"), "2001:db8:****:370:7334");
}

#[test]
fn addresses_without_a_middle_stay_as_they_are() {
    assert_eq!(mask_ip("localhost"), "localhost");
    assert_eq!(mask_ip(""), "");
}

#[test]
fn a_failed_masking_hides_the_address() {
    let refused = regex::Regex::new("(").unwrap_err();
    assert_eq!(masked_or_hidden(Err(refused)), "****");
    assert_eq!(masked_or_hidden(Ok("192.****.77".to_string())), "192.****.77");
}

#[test]
fn events_carry_no_private_fields() {
    let site = member("a.example", "Site A");
    let event = announce("192.168.1.77", "NL", &site);
    assert_eq!(event.ip, "192.****.77");
    assert_eq!(event.country, "NL");
    assert_eq!(event.member.name, "Site A");
    assert_eq!(event.member.domain, "a.example");
    assert_eq!(event.member.description, "");
    assert_eq!(event.member.icon, "");
    assert_eq!(event.member.github_username, "");
    let event = visit_event("masked".to_string(), "DE", &site);
    assert_eq!(event.ip, "masked");
    assert_eq!(event.country, "DE");
    assert_eq!(event.member.description, "");
}

#[test]
fn a_badge_visit_counts_a_unique_visitor() {
    let mut context = engine(2);
    let visit = context
        .boring_visitor(VisitorType::Badge, "a.example", "192.168.1.77", "NL", 1000)
        .unwrap();
    assert_eq!(visit.name, "Site A");
    assert_eq!(visit.unique_visitor, 1);
    assert_eq!(visit.referrer, 0);
    assert_eq!(visit.level, 1);
    assert!(visit.fresh);
    assert_eq!(counts(&context, 1), (1, 0));
    assert_eq!(counts(&context, 2), (0, 0));
    assert_eq!(context.counter_store().unique_visitor(1, 0).last_event_at, 1000);
    let event = visit.event.unwrap();
    assert_eq!(event.ip, "192.****.77");
    assert_eq!(event.country, "NL");
    assert_eq!(event.member.id, 1);
    assert_eq!(event.member.name, "Site A");
    assert_eq!(event.member.description, "");
}

#[test]
fn a_repeated_visit_is_counted_once() {
    let mut context = engine(1);
    for kind in [VisitorType::Badge, VisitorType::Referrer] {
        let first = context.boring_visitor(kind, "a.example", "9.9.9.9", "NL", 1000).unwrap();
        let second = context.boring_visitor(kind, "a.example", "9.9.9.9", "NL", 1001).unwrap();
        assert!(first.fresh);
        assert!(!second.fresh);
        assert_eq!(first.unique_visitor, second.unique_visitor);
        assert_eq!(first.referrer, second.referrer);
        assert!(second.event.is_none());
    }
    assert_eq!(counts(&context, 1), (1, 1));
}

#[test]
fn a_referrer_visit_counts_a_referrer_and_is_not_announced() {
    let mut context = engine(1);
    let visit = context
        .boring_visitor(VisitorType::Referrer, "b.example", "9.9.9.9", "NL", 1000)
        .unwrap();
    assert_eq!(visit.name, "Site B");
    assert_eq!((visit.unique_visitor, visit.referrer), (0, 1));
    assert!(visit.fresh);
    assert!(visit.event.is_none());
    assert_eq!(counts(&context, 2), (0, 1));
    assert_eq!(context.counter_store().referrer(2, 0).last_event_at, 1000);
}

#[test]
fn an_icon_visit_counts_nothing() {
    let mut context = engine(1);
    let visit = context
        .boring_visitor(VisitorType::ICON, "a.example", "9.9.9.9", "NL", 1000)
        .unwrap();
    assert!(visit.fresh);
    assert!(visit.event.is_none());
    assert_eq!((visit.unique_visitor, visit.referrer, visit.level), (0, 0, 1));
    assert_eq!(counts(&context, 1), (0, 0));
}

#[test]
fn kinds_are_deduplicated_apart() {
    let mut context = engine(1);
    context.boring_visitor(VisitorType::Referrer, "a.example", "9.9.9.9", "NL", 1).unwrap();
    let visit = context.boring_visitor(VisitorType::Badge, "a.example", "9.9.9.9", "NL", 2).unwrap();
    assert!(visit.fresh);
    assert_eq!((visit.unique_visitor, visit.referrer), (1, 1));
    assert_eq!(visit.level, 2);
}

#[test]
fn a_domain_without_member_is_refused() {
    let mut context = engine(1);
    let refused = context
        .boring_visitor(VisitorType::Badge, "c.example", "9.9.9.9", "NL", 1000)
        .unwrap_err();
    assert_eq!(refused, VisitError::NotAMember);
    assert_eq!(refused.message(), "not a member");
    assert_eq!(counts(&context, 1), (0, 0));
}

#[test]
fn a_referral_from_the_directory_itself_is_refused() {
    let mut context = engine(1);
    let refused = context
        .boring_visitor(VisitorType::Referrer, "ring.example", "9.9.9.9", "NL", 1000)
        .unwrap_err();
    assert_eq!(refused, VisitError::SystemDomain);
    assert_eq!(refused.message(), "system domain");
    let refused = context
        .boring_visitor(VisitorType::Badge, "ring.example", "9.9.9.9", "NL", 1000)
        .unwrap_err();
    assert_eq!(refused, VisitError::NotAMember);
}

#[test]
fn the_level_follows_the_counts_and_the_baseline() {
    let mut context = engine(2);
    let mut last = 0;
    for visitor in 0..12 {
        let kind = if visitor < 7 { VisitorType::Badge } else { VisitorType::Referrer };
        let ip = format!("10.0.0.{}", visitor);
        let visit = context.boring_visitor(kind, "a.example", &ip, "NL", 1000 + visitor).unwrap();
        last = visit.level;
        assert_eq!(visit.level, context.get_tend_from_uv_and_rv(visit.unique_visitor, visit.referrer));
    }
    assert_eq!(counts(&context, 1), (7, 5));
    assert_eq!(last, 6);
    assert_eq!(context.get_tend_from_uv_and_rv(7, 5), 6);
}

#[test]
fn counts_never_decrease_within_a_day() {
    let mut context = engine(3);
    let kinds = [VisitorType::Badge, VisitorType::Referrer, VisitorType::ICON];
    let domains = ["a.example", "b.example", "nobody.example"];
    let mut before = [counts(&context, 1), counts(&context, 2)];
    for step in 0..200usize {
        let ip = format!("10.0.{}.{}", step % 7, step % 5);
        let _ = context.boring_visitor(kinds[step % 3], domains[(step / 3) % 3], &ip, "NL", step as i64);
        let after = [counts(&context, 1), counts(&context, 2)];
        for member in 0..2 {
            assert!(after[member].0 >= before[member].0);
            assert!(after[member].1 >= before[member].1);
        }
        before = after;
    }
}

#[test]
fn distinct_visitors_each_add_one() {
    let mut context = engine(1);
    for visitor in 0..250 {
        let ip = format!("10.1.{}.{}", visitor / 100, visitor % 100);
        let visit = context.boring_visitor(VisitorType::Badge, "b.example", &ip, "NL", 5).unwrap();
        assert!(visit.fresh);
        assert_eq!(visit.unique_visitor, visitor + 1);
    }
    assert_eq!(counts(&context, 2), (250, 0));
}

#[test]
fn counts_are_held_at_the_largest_count() {
    let seeded = vec![Statistics {
        id: 0,
        created_at: 0,
        updated_at: 10,
        membership_id: 1,
        unique_visitor: i64::MAX - 1,
        referrer: i64::MAX,
        latest_referrer_at: 20,
    }];
    let members = vec![(1, member("a.example", "Site A"))];
    let mut context =
        Context::new(&seeded, &members, Vec::new(), Vec::new(), 1, "ring.example".to_string());
    assert_eq!(context.count_visit(VisitorType::Badge, 1, true, 30), (i64::MAX, i64::MAX));
    assert_eq!(context.count_visit(VisitorType::Badge, 1, true, 31), (i64::MAX, i64::MAX));
    assert_eq!(context.count_visit(VisitorType::Referrer, 1, true, 32), (i64::MAX, i64::MAX));
    assert_eq!(context.get_tend_from_uv_and_rv(i64::MAX, i64::MAX), 10);
}

#[test]
fn count_visit_follows_the_answer_of_the_cache() {
    let mut context = engine(1);
    assert_eq!(context.count_visit(VisitorType::Badge, 1, false, 5), (0, 0));
    assert_eq!(context.count_visit(VisitorType::Badge, 1, true, 6), (1, 0));
    assert_eq!(context.count_visit(VisitorType::Referrer, 1, true, 7), (1, 1));
    assert_eq!(context.count_visit(VisitorType::Referrer, 1, false, 8), (1, 1));
    assert_eq!(context.count_visit(VisitorType::ICON, 1, true, 9), (1, 1));
    assert_eq!(context.count_visit(VisitorType::Referrer, 2, true, 9), (0, 1));
    assert_eq!(context.counter_store().unique_visitor(1, 0).last_event_at, 6);
    assert_eq!(context.counter_store().referrer(1, 0).last_event_at, 7);
}

#[test]
fn the_engine_starts_from_what_was_persisted() {
    let seeded = vec![
        Statistics {
            id: 3,
            created_at: 0,
            updated_at: 10,
            membership_id: 2,
            unique_visitor: 4,
            referrer: 6,
            latest_referrer_at: 20,
        },
        Statistics {
            id: 4,
            created_at: 0,
            updated_at: 11,
            membership_id: 1,
            unique_visitor: -4,
            referrer: 1,
            latest_referrer_at: 21,
        },
    ];
    let members = vec![(1, member("a.example", "Site A")), (2, member("b.example", "Site B"))];
    let context = Context::new(
        &seeded,
        &members,
        vec![seeded[0]],
        vec![seeded[1]],
        0,
        "ring.example".to_string(),
    );
    assert_eq!(counts(&context, 2), (4, 6));
    assert_eq!(counts(&context, 1), (0, 1));
    assert_eq!(context.counter_store().unique_visitor(2, 99).last_event_at, 10);
    assert_eq!(context.counter_store().referrer(2, 99).last_event_at, 20);
    assert_eq!(context.counter_store().referrer(5, 99).last_event_at, 99);
    assert_eq!(context.rank_svg(), 1);
    assert_eq!(context.directory().len(), 2);
    let (rank, monthly) = context.current_rankings();
    assert_eq!(rank, &vec![seeded[0]]);
    assert_eq!(monthly, &vec![seeded[1]]);
    let svg = context.badge().render_svg("Site A", 1, 2, 3);
    assert!(svg.contains("fill: #f5acb9;"));
    assert!(svg.contains(">UV: 1  Referrer: 2  Level: 3</text>"));
    assert!(context.favicon().render_svg("", 0, 0, 1).contains("fill: #d0273e;"));
    assert!(context.icon().render_svg("", 0, 0, 1).contains("viewBox=\"6 6.1 98 97\""));
}

#[test]
fn the_baseline_has_a_floor_of_one() {
    let mut context = engine(-5);
    assert_eq!(context.rank_svg(), 1);
    context.set_rank_svg(0);
    assert_eq!(context.rank_svg(), 1);
    context.set_rank_svg(4);
    assert_eq!(context.rank_svg(), 4);
    assert_eq!(context.get_tend_from_uv_and_rv(9, 8), 4);
}
