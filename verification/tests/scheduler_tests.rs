use naive::app_model::{Context, VisitorType};
use naive::counter_store::{CounterEntry, CounterStore};
use naive::membership_model::{MemberDirectory, Membership};
use naive::ranking::RankError;
use naive::scheduler::{Scheduler, TickOutcome};
use naive::statistics_model::Statistics;

const DAY: i64 = 86_400;

fn site(domain: &str, name: &str, hidden: Option<bool>) -> Membership {
    Membership {
        id: 0,
        domain: domain.to_string(),
        name: name.to_string(),
        icon: String::new(),
        description: String::new(),
        github_username: String::new(),
        hidden,
    }
}

fn ring() -> Context {
    let members = vec![
        (1, site("a.example", "Site A", None)),
        (2, site("b.example", "Site B", Some(false))),
        (3, site("c.example", "Site C", None)),
    ];
    Context::new(&Vec::new(), &members, Vec::new(), Vec::new(), 1, "ring.example".to_string())
}

fn stored(member: i64, unique_visitor: i64, referrer: i64) -> Statistics {
    Statistics {
        id: 0,
        created_at: 0,
        updated_at: 5,
        membership_id: member,
        unique_visitor,
        referrer,
        latest_referrer_at: 6,
    }
}

#[test]
fn the_directory_leaves_out_hidden_entries() {
    let entries = vec![
        (5, site("e.example", "E", None)),
        (3, site("c.example", "C", Some(true))),
        (4, site("d.example", "D", Some(false))),
    ];
    let directory = MemberDirectory::load(&entries);
    assert_eq!(directory.len(), 2);
    assert_eq!(directory.member(0).id, 5);
    assert_eq!(directory.member(0).name, "E");
    assert_eq!(directory.member(1).id, 4);
    assert_eq!(directory.position_of(3), None);
    assert_eq!(directory.position_of(4), Some(1));
    assert_eq!(directory.position_of_domain("c.example"), None);
    assert_eq!(directory.position_of_domain("e.example"), Some(0));
}

#[test]
fn the_directory_keeps_the_first_entry_of_a_key() {
    let entries = vec![
        (5, site("e.example", "E", None)),
        (5, site("other.example", "Other", None)),
        (6, site("e.example", "Same domain", None)),
    ];
    let directory = MemberDirectory::load(&entries);
    assert_eq!(directory.len(), 2);
    assert_eq!(directory.member(0).domain, "e.example");
    assert_eq!(directory.member(1).id, 6);
    assert_eq!(directory.position_of_domain("other.example"), None);
    assert_eq!(directory.position_of_domain("e.example"), Some(0));
    let copy = directory.member(1).duplicate();
    assert_eq!(copy.name, "Same domain");
    assert_eq!(copy.id, 6);
}

#[test]
fn the_store_counts_per_member_and_dimension() {
    let mut store = CounterStore::new();
    assert_eq!(store.record_unique_visitor(1, 10), (1, 0));
    assert_eq!(store.record_unique_visitor(1, 11), (2, 0));
    assert_eq!(store.record_referrer(1, 12), (2, 1));
    assert_eq!(store.record_referrer(2, 13), (0, 1));
    assert_eq!(store.unique_visitor(1, 0), CounterEntry { count: 2, last_event_at: 11 });
    assert_eq!(store.referrer(1, 0), CounterEntry { count: 1, last_event_at: 12 });
    assert_eq!(store.unique_visitor(2, 77), CounterEntry { count: 0, last_event_at: 77 });
    store.reset_all();
    assert_eq!(store.unique_visitor(1, 5), CounterEntry { count: 0, last_event_at: 5 });
    assert_eq!(store.referrer(2, 5), CounterEntry { count: 0, last_event_at: 5 });
}

#[test]
fn the_store_lists_the_members_that_changed() {
    let mut store = CounterStore::from_rows(&vec![stored(1, 2, 3), stored(2, 0, 0), stored(3, 1, 1)]);
    let previous = CounterStore::from_rows(&vec![stored(1, 2, 3), stored(3, 1, 1)]);
    assert_eq!(store.snapshot_changed(&previous, &vec![1, 2, 3, 4]), Vec::<i64>::new());
    store.record_referrer(3, 9);
    store.record_unique_visitor(4, 9);
    assert_eq!(store.snapshot_changed(&previous, &vec![1, 2, 3, 4]), vec![3, 4]);
    assert_eq!(store.snapshot_changed(&previous, &vec![4, 3, 4]), vec![4, 3, 4]);
    assert!(store.changed(&previous, 3));
    assert!(!store.changed(&previous, 1));
}

#[test]
fn the_store_takes_negative_counts_as_zero() {
    let store = CounterStore::from_rows(&vec![stored(1, -2, -3), stored(2, 4, -1)]);
    assert_eq!(store.unique_visitor(1, 0).count, 0);
    assert_eq!(store.referrer(1, 0).count, 0);
    assert_eq!(store.unique_visitor(2, 0).count, 4);
    assert_eq!(store.referrer(2, 0).count, 0);
    assert_eq!(store.referrer(2, 0).last_event_at, 6);
}

#[test]
fn a_tick_asks_for_the_rows_of_changed_members() {
    let mut context = ring();
    let mut scheduler = Scheduler::new(3 * DAY);
    assert_eq!(scheduler.day(), 3 * DAY);
    assert_eq!(scheduler.plan_flush(&context, 3 * DAY + 50), Vec::new());
    context.boring_visitor(VisitorType::Badge, "c.example", "1.1.1.1", "NL", 3 * DAY + 10).unwrap();
    context.boring_visitor(VisitorType::Referrer, "a.example", "1.1.1.1", "NL", 3 * DAY + 20).unwrap();
    context.boring_visitor(VisitorType::Badge, "a.example", "1.1.1.1", "NL", 3 * DAY + 30).unwrap();
    let rows = scheduler.plan_flush(&context, 3 * DAY + 50);
    assert_eq!(
        rows,
        vec![
            Statistics {
                id: 0,
                created_at: 3 * DAY,
                updated_at: 3 * DAY + 30,
                membership_id: 1,
                unique_visitor: 1,
                referrer: 1,
                latest_referrer_at: 3 * DAY + 20,
            },
            Statistics {
                id: 0,
                created_at: 3 * DAY,
                updated_at: 3 * DAY + 10,
                membership_id: 3,
                unique_visitor: 1,
                referrer: 0,
                latest_referrer_at: 3 * DAY + 50,
            },
        ]
    );
    assert!(!scheduler.is_flushed(&context));
    scheduler.mark_flushed(&rows[0]);
    assert_eq!(scheduler.plan_flush(&context, 3 * DAY + 60).len(), 1);
    assert_eq!(scheduler.plan_flush(&context, 3 * DAY + 60)[0].membership_id, 3);
    scheduler.mark_flushed(&rows[1]);
    assert_eq!(scheduler.plan_flush(&context, 3 * DAY + 70), Vec::new());
    assert!(scheduler.is_flushed(&context));
}

#[test]
fn a_row_that_was_not_written_is_asked_for_again() {
    let mut context = ring();
    let scheduler = Scheduler::new(3 * DAY);
    context.boring_visitor(VisitorType::Badge, "b.example", "1.1.1.1", "NL", 3 * DAY + 10).unwrap();
    let first = scheduler.plan_flush(&context, 3 * DAY + 50);
    let second = scheduler.plan_flush(&context, 3 * DAY + 50);
    assert_eq!(first.len(), 1);
    assert_eq!(first, second);
}

#[test]
fn a_tick_on_the_same_day_changes_nothing() {
    let mut context = ring();
    let mut scheduler = Scheduler::new(3 * DAY);
    context.boring_visitor(VisitorType::Badge, "a.example", "1.1.1.1", "NL", 3 * DAY + 10).unwrap();
    assert_eq!(scheduler.end_tick(&mut context, 3 * DAY), TickOutcome::SameDay);
    assert_eq!(context.counter_store().unique_visitor(1, 0).count, 1);
    assert_eq!(scheduler.day(), 3 * DAY);
}

#[test]
fn a_new_day_resets_the_counters_and_the_dedup_cache() {
    let mut context = ring();
    let mut scheduler = Scheduler::new(3 * DAY);
    context.boring_visitor(VisitorType::Badge, "a.example", "1.1.1.1", "NL", 3 * DAY + 10).unwrap();
    context.boring_visitor(VisitorType::Referrer, "b.example", "1.1.1.1", "NL", 3 * DAY + 11).unwrap();
    for row in scheduler.plan_flush(&context, 3 * DAY + 50) {
        scheduler.mark_flushed(&row);
    }
    assert_eq!(scheduler.end_tick(&mut context, 4 * DAY), TickOutcome::RolledOver);
    assert_eq!(scheduler.day(), 4 * DAY);
    for member in 1..=3 {
        assert_eq!(context.counter_store().unique_visitor(member, 0).count, 0);
        assert_eq!(context.counter_store().referrer(member, 0).count, 0);
    }
    assert_eq!(scheduler.plan_flush(&context, 4 * DAY + 1), Vec::new());
    // The visitor of yesterday counts once more, and only once.
    let again = context
        .boring_visitor(VisitorType::Badge, "a.example", "1.1.1.1", "NL", 4 * DAY + 10)
        .unwrap();
    assert!(again.fresh);
    assert_eq!(again.unique_visitor, 1);
    let repeat = context
        .boring_visitor(VisitorType::Badge, "a.example", "1.1.1.1", "NL", 4 * DAY + 11)
        .unwrap();
    assert!(!repeat.fresh);
    let rows = scheduler.plan_flush(&context, 4 * DAY + 20);
    assert_eq!(rows.len(), 1);
    assert_eq!(rows[0].created_at, 4 * DAY);
    assert_eq!(scheduler.end_tick(&mut context, 4 * DAY), TickOutcome::SameDay);
}

#[test]
fn a_new_day_waits_for_counts_that_are_not_persisted() {
    let mut context = ring();
    let mut scheduler = Scheduler::new(3 * DAY);
    context.boring_visitor(VisitorType::Badge, "a.example", "1.1.1.1", "NL", 3 * DAY + 10).unwrap();
    assert_eq!(scheduler.end_tick(&mut context, 4 * DAY), TickOutcome::RolloverDeferred);
    assert_eq!(scheduler.day(), 3 * DAY);
    assert_eq!(context.counter_store().unique_visitor(1, 0).count, 1);
    let rows = scheduler.plan_flush(&context, 4 * DAY + 5);
    assert_eq!(rows.len(), 1);
    assert_eq!(rows[0].created_at, 3 * DAY);
    scheduler.mark_flushed(&rows[0]);
    assert_eq!(scheduler.end_tick(&mut context, 4 * DAY), TickOutcome::RolledOver);
    assert_eq!(context.counter_store().unique_visitor(1, 0).count, 0);
}

#[test]
fn a_clock_that_goes_back_resets_nothing() {
    let mut context = ring();
    let mut scheduler = Scheduler::new(3 * DAY);
    context.boring_visitor(VisitorType::Badge, "a.example", "1.1.1.1", "NL", 3 * DAY + 10).unwrap();
    for row in scheduler.plan_flush(&context, 3 * DAY + 50) {
        scheduler.mark_flushed(&row);
    }
    assert_eq!(scheduler.end_tick(&mut context, 2 * DAY), TickOutcome::ClockAnomaly);
    assert_eq!(scheduler.day(), 3 * DAY);
    assert_eq!(context.counter_store().unique_visitor(1, 0).count, 1);
    let repeat = context
        .boring_visitor(VisitorType::Badge, "a.example", "1.1.1.1", "NL", 3 * DAY + 60)
        .unwrap();
    assert!(!repeat.fresh);
    assert_eq!(scheduler.end_tick(&mut context, 2 * DAY), TickOutcome::ClockAnomaly);
}

#[test]
fn rollover_empties_counters_and_cache() {
    let mut context = ring();
    context.boring_visitor(VisitorType::Referrer, "a.example", "1.1.1.1", "NL", 10).unwrap();
    context.set_rank_svg(7);
    context.rollover();
    assert_eq!(context.counter_store().referrer(1, 0).count, 0);
    assert_eq!(context.rank_svg(), 7);
    assert_eq!(context.directory().len(), 3);
    let visit = context.boring_visitor(VisitorType::Referrer, "a.example", "1.1.1.1", "NL", 11).unwrap();
    assert!(visit.fresh);
    assert_eq!(visit.referrer, 1);
}

#[test]
fn shutdown_persists_every_member() {
    let mut context = ring();
    context.boring_visitor(VisitorType::Badge, "b.example", "1.1.1.1", "NL", 3 * DAY + 10).unwrap();
    let rows = context.final_records(3 * DAY, 3 * DAY + 99);
    assert_eq!(rows.len(), 3);
    assert_eq!(
        rows[0],
        Statistics {
            id: 0,
            created_at: 3 * DAY,
            updated_at: 3 * DAY + 99,
            membership_id: 1,
            unique_visitor: 0,
            referrer: 0,
            latest_referrer_at: 3 * DAY + 99,
        }
    );
    assert_eq!(rows[1], context.record_of(2, 3 * DAY, 3 * DAY + 99));
    assert_eq!(rows[1].unique_visitor, 1);
    assert_eq!(rows[1].updated_at, 3 * DAY + 10);
    assert_eq!(rows[2].membership_id, 3);
    assert_eq!(context.pending_records(&CounterStore::new(), 3 * DAY, 3 * DAY + 99), vec![rows[1]]);
}

#[test]
fn rankings_are_computed_anew_from_the_rows() {
    let mut context = ring();
    let now = 100 * DAY;
    let rows = vec![
        Statistics {
            id: 1,
            created_at: 10 * DAY,
            updated_at: 10 * DAY + 5,
            membership_id: 1,
            unique_visitor: 5,
            referrer: 50,
            latest_referrer_at: 10 * DAY + 6,
        },
        Statistics {
            id: 2,
            created_at: 90 * DAY,
            updated_at: 90 * DAY + 5,
            membership_id: 2,
            unique_visitor: 3,
            referrer: 4,
            latest_referrer_at: 90 * DAY + 6,
        },
        Statistics {
            id: 3,
            created_at: 95 * DAY,
            updated_at: 95 * DAY + 5,
            membership_id: 1,
            unique_visitor: 1,
            referrer: 2,
            latest_referrer_at: 95 * DAY + 6,
        },
        Statistics {
            id: 4,
            created_at: -DAY,
            updated_at: 0,
            membership_id: 3,
            unique_visitor: 100,
            referrer: 100,
            latest_referrer_at: 0,
        },
    ];
    assert_eq!(context.refresh_rankings(&rows, now), Ok(()));
    let (all_time, monthly) = context.current_rankings();
    let all_time: Vec<(i64, i64, i64)> =
        all_time.iter().map(|e| (e.membership_id, e.unique_visitor, e.referrer)).collect();
    let monthly: Vec<(i64, i64, i64)> =
        monthly.iter().map(|e| (e.membership_id, e.unique_visitor, e.referrer)).collect();
    assert_eq!(all_time, vec![(1, 6, 52), (2, 3, 4)]);
    assert_eq!(monthly, vec![(2, 3, 4), (1, 1, 2)]);
}

#[test]
fn rankings_stay_when_they_cannot_be_computed() {
    let mut context = ring();
    let good = vec![stored(1, 2, 3)];
    assert_eq!(context.refresh_rankings(&good, 10), Ok(()));
    let bad = vec![stored(1, i64::MAX, 3), stored(1, i64::MAX, 3)];
    assert_eq!(context.refresh_rankings(&bad, 10), Err(RankError::SumOutOfRange));
    let (all_time, monthly) = context.current_rankings();
    assert_eq!(all_time.len(), 1);
    assert_eq!(all_time[0].unique_visitor, 2);
    assert_eq!(monthly.len(), 1);
}

#[test]
fn the_engine_starts_from_the_persisted_history() {
    let members = vec![
        (1, site("a.example", "Site A", None)),
        (2, site("b.example", "Site B", None)),
    ];
    let now = 100 * DAY + 500;
    let history = vec![
        Statistics {
            id: 1,
            created_at: 10 * DAY,
            updated_at: 10 * DAY + 5,
            membership_id: 1,
            unique_visitor: 5,
            referrer: 50,
            latest_referrer_at: 10 * DAY + 6,
        },
        Statistics {
            id: 2,
            created_at: 99 * DAY,
            updated_at: 99 * DAY + 5,
            membership_id: 2,
            unique_visitor: 130,
            referrer: 70,
            latest_referrer_at: 99 * DAY + 6,
        },
        Statistics {
            id: 3,
            created_at: 100 * DAY,
            updated_at: 100 * DAY + 7,
            membership_id: 2,
            unique_visitor: 3,
            referrer: 4,
            latest_referrer_at: 100 * DAY + 8,
        },
    ];
    let today = vec![history[2]];
    let yesterday = Some(vec![history[1]]);
    let context =
        Context::default(&today, &members, &history, &yesterday, now, "ring.example".to_string())
            .unwrap();
    assert_eq!(context.counter_store().unique_visitor(2, 0).count, 3);
    assert_eq!(context.counter_store().referrer(2, 0).count, 4);
    assert_eq!(context.counter_store().unique_visitor(1, 0).count, 0);
    // Yesterday one member was active with 200 views: a tenth of that.
    assert_eq!(context.rank_svg(), 20);
    let (all_time, monthly) = context.current_rankings();
    let all_time: Vec<(i64, i64)> = all_time.iter().map(|e| (e.membership_id, e.referrer)).collect();
    let monthly: Vec<(i64, i64)> = monthly.iter().map(|e| (e.membership_id, e.referrer)).collect();
    assert_eq!(all_time, vec![(2, 74), (1, 50)]);
    assert_eq!(monthly, vec![(2, 74)]);
    let without = Context::default(&today, &members, &history, &None, now, "r".to_string()).unwrap();
    assert_eq!(without.rank_svg(), 1);
}

#[test]
fn there_is_no_engine_without_rankings() {
    let history = vec![stored(1, i64::MAX, 3), stored(1, i64::MAX, 3)];
    let outcome = Context::default(&Vec::new(), &Vec::new(), &history, &None, 10, "r".to_string());
    assert_eq!(outcome.err(), Some(RankError::SumOutOfRange));
}

#[test]
fn the_baseline_follows_the_day_that_ended() {
    let mut context = ring();
    context.recompute_baseline(&Some(vec![stored(1, 300, 100), stored(2, 0, 0), stored(3, 150, 50)]));
    assert_eq!(context.rank_svg(), 30);
    context.recompute_baseline(&Some(Vec::new()));
    assert_eq!(context.rank_svg(), 1);
    context.recompute_baseline(&Some(vec![stored(1, 300, 100)]));
    assert_eq!(context.rank_svg(), 40);
    context.recompute_baseline(&None);
    assert_eq!(context.rank_svg(), 1);
}
