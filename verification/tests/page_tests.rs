use naive::app_model::{Context, VisitorType};
use naive::app_router::{home_page, on_shelf, rank_page, shelve, standings, Shelf, FEATURED};
use naive::counter_store::CounterStore;
use naive::membership_model::{MemberDirectory, Membership};
use naive::statistics_model::Statistics;

const DAY: i64 = 86_400;

fn entry_of(domain: &str, name: &str) -> Membership {
    Membership {
        id: 0,
        domain: domain.to_string(),
        name: name.to_string(),
        icon: String::new(),
        description: String::new(),
        github_username: String::new(),
        hidden: None,
    }
}

fn counted(member: i64, unique_visitor: i64, referrer: i64) -> Statistics {
    Statistics {
        id: 0,
        created_at: 0,
        updated_at: 5,
        membership_id: member,
        unique_visitor,
        referrer,
        latest_referrer_at: 6,
    }
}

fn ranked(member: i64, updated_at: i64) -> Statistics {
    Statistics {
        id: 0,
        created_at: 0,
        updated_at,
        membership_id: member,
        unique_visitor: 1,
        referrer: 1,
        latest_referrer_at: updated_at,
    }
}

fn many_members(count: i64) -> Vec<(i64, Membership)> {
    (1..=count).map(|id| (id, entry_of(&format!("m{}.example", id), &format!("Member {}", id)))).collect()
}

#[test]
fn the_home_page_lists_active_members_by_score() {
    let today = vec![
        counted(1, 3, 0),
        counted(2, 0, 0),
        counted(3, 10, 9),
        counted(4, 0, 8),
        counted(5, 4, 5),
    ];
    let context =
        Context::new(&today, &many_members(5), Vec::new(), Vec::new(), 2, "ring.example".to_string());
    let page = home_page(&context, 100 * DAY);
    let listed: Vec<(i64, i64, i64, i64)> = page
        .membership
        .iter()
        .map(|s| (s.member.id, s.unique_visitor, s.referrer, s.level))
        .collect();
    // Scores: member 3 has 9, members 4 and 5 have 4, member 1 has 1.
    assert_eq!(listed, vec![(3, 10, 9, 9), (4, 0, 8, 4), (5, 4, 5, 4), (1, 3, 0, 1)]);
    assert_eq!(page.membership[0].member.name, "Member 3");
    assert!(page.rank.is_empty());
    assert!(page.to_be_remove.is_empty());
}

#[test]
fn standings_clamp_the_level_and_not_the_score() {
    let store = CounterStore::from_rows(&vec![counted(1, 30, 0), counted(2, 50, 0), counted(3, 0, 40)]);
    let directory = MemberDirectory::load(&many_members(3));
    let list = standings(&directory, &store, 1);
    let listed: Vec<(i64, i64)> = list.iter().map(|s| (s.member.id, s.level)).collect();
    assert_eq!(listed, vec![(2, 10), (3, 10), (1, 10)]);
    assert!(standings(&directory, &CounterStore::new(), 1).is_empty());
}

#[test]
fn the_home_page_features_ten_fresh_members() {
    let now = 100 * DAY;
    let cutoff = now - 30 * DAY;
    let mut monthly = Vec::new();
    for member in 1..=14 {
        monthly.push(ranked(member, now - member));
    }
    monthly[1].updated_at = cutoff - 1;
    monthly[2].updated_at = cutoff;
    monthly[3].membership_id = 99;
    let all_time = vec![ranked(1, cutoff - 1), ranked(2, cutoff), ranked(98, 0), ranked(3, 0)];
    let context = Context::new(
        &Vec::new(),
        &many_members(14),
        all_time,
        monthly,
        1,
        "ring.example".to_string(),
    );
    let page = home_page(&context, now);
    let featured: Vec<i64> = page.rank.iter().map(|r| r.membership.id).collect();
    assert_eq!(FEATURED, 10);
    assert_eq!(featured, vec![1, 3, 5, 6, 7, 8, 9, 10, 11, 12]);
    assert_eq!(page.rank[1].rank.updated_at, cutoff);
    assert_eq!(page.rank[1].membership.name, "Member 3");
    let leaving: Vec<i64> = page.to_be_remove.iter().map(|r| r.membership.id).collect();
    assert_eq!(leaving, vec![1, 3]);
    assert!(page.membership.is_empty());
}

#[test]
fn the_rank_page_parts_recent_from_lapsed() {
    let now = 100 * DAY;
    let cutoff = now - 30 * DAY;
    let all_time = vec![
        ranked(4, now),
        ranked(1, cutoff + 1),
        ranked(2, cutoff),
        ranked(77, now),
        ranked(3, cutoff - 1),
    ];
    let context = Context::new(
        &Vec::new(),
        &many_members(4),
        all_time,
        Vec::new(),
        1,
        "ring.example".to_string(),
    );
    let page = rank_page(&context, now);
    let recent: Vec<i64> = page.rank.iter().map(|r| r.rank.membership_id).collect();
    let lapsed: Vec<i64> = page.to_be_remove.iter().map(|r| r.rank.membership_id).collect();
    assert_eq!(recent, vec![4, 1]);
    assert_eq!(lapsed, vec![2, 3]);
    assert_eq!(page.rank[0].membership.domain, "m4.example");
    assert_eq!(page.to_be_remove[1].membership.name, "Member 3");
}

#[test]
fn shelves_part_the_instants_around_the_cutoff() {
    let now = 100 * DAY;
    let cutoff = now - 30 * DAY;
    assert!(on_shelf(Shelf::Fresh, cutoff, now) && !on_shelf(Shelf::Stale, cutoff, now));
    assert!(!on_shelf(Shelf::Recent, cutoff, now) && on_shelf(Shelf::Lapsed, cutoff, now));
    assert!(on_shelf(Shelf::Fresh, cutoff + 1, now) && on_shelf(Shelf::Recent, cutoff + 1, now));
    assert!(on_shelf(Shelf::Stale, cutoff - 1, now) && on_shelf(Shelf::Lapsed, cutoff - 1, now));
    assert!(on_shelf(Shelf::Fresh, i64::MIN, i64::MIN + 3));
    assert!(on_shelf(Shelf::Stale, i64::MIN, i64::MAX));
}

#[test]
fn a_shelf_takes_no_more_than_its_limit() {
    let directory = MemberDirectory::load(&many_members(5));
    let ranking: Vec<Statistics> = (1..=5).map(|member| ranked(member, 50)).collect();
    assert_eq!(shelve(&directory, &ranking, Shelf::Fresh, 60, 0).len(), 0);
    assert_eq!(shelve(&directory, &ranking, Shelf::Fresh, 60, 3).len(), 3);
    assert_eq!(shelve(&directory, &ranking, Shelf::Fresh, 60, usize::MAX).len(), 5);
    assert_eq!(shelve(&directory, &ranking, Shelf::Stale, 60, usize::MAX).len(), 0);
}

#[test]
fn the_home_page_follows_the_visits_of_the_day() {
    let mut context = Context::new(
        &Vec::new(),
        &many_members(3),
        Vec::new(),
        Vec::new(),
        1,
        "ring.example".to_string(),
    );
    for visitor in 0..3 {
        let ip = format!("10.0.0.{}", visitor);
        context.boring_visitor(VisitorType::Badge, "m2.example", &ip, "NL", 10).unwrap();
    }
    context.boring_visitor(VisitorType::Referrer, "m3.example", "10.0.0.1", "NL", 11).unwrap();
    let page = home_page(&context, 20);
    let listed: Vec<(i64, i64, i64, i64)> = page
        .membership
        .iter()
        .map(|s| (s.member.id, s.unique_visitor, s.referrer, s.level))
        .collect();
    assert_eq!(listed, vec![(2, 3, 0, 3), (3, 0, 1, 1)]);
}
