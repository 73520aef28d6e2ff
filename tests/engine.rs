use glpi_notifier::seen::SeenState;
use glpi_notifier::tick::{batch_outcome, cycle_report, unseen_newest_first, BatchOutcome, CycleReport, Poller};
use glpi_notifier::ticket::{ticket_ids, Ticket};

fn t(id: i64) -> Ticket {
    Ticket { id, name: format!("ticket {}", id), requester: None }
}

fn ids(v: &[Ticket]) -> Vec<i64> {
    v.iter().map(|t| t.id).collect()
}

fn seen_ids(s: &SeenState) -> Vec<i64> {
    s.seen_ticket_ids.iter().copied().collect()
}

/// Runs one cycle as the polling loop does, every delivery succeeding.
fn run_cycle(p: &mut Poller, fetched: &Vec<Ticket>) -> Vec<i64> {
    let plan = p.begin_tick(fetched);
    let mut delivered = Vec::new();
    for x in &plan.deliver {
        delivered.push(x.id);
        p.mark_delivered(x.id);
    }
    delivered
}

#[test]
fn steady_state_example_delivers_newest_first() {
    let seen = SeenState::from_ids(&vec![100, 101]);
    let mut p = Poller::new(seen, false);
    assert!(!p.first_run);
    let fetched = vec![t(103), t(102), t(101)];
    let delivered = run_cycle(&mut p, &fetched);
    assert_eq!(delivered, vec![103, 102]);
    assert_eq!(seen_ids(&p.seen), vec![100, 101, 102, 103]);
}

#[test]
fn unseen_are_delivered_once_in_descending_order() {
    let seen = SeenState::from_ids(&vec![5]);
    let fetched = vec![t(7), t(3), t(9), t(5), t(7), t(1)];
    let batch = unseen_newest_first(&fetched, &seen);
    assert_eq!(ids(&batch), vec![9, 7, 3, 1]);
    assert_eq!(batch[1].name, "ticket 7");
}

#[test]
fn empty_query_delivers_nothing() {
    let mut p = Poller::new(SeenState::from_ids(&vec![1]), false);
    let plan = p.begin_tick(&vec![]);
    assert!(plan.deliver.is_empty());
    assert!(!plan.persist);
}

#[test]
fn seen_tickets_are_never_redelivered() {
    let mut p = Poller::new(SeenState::from_ids(&vec![10]), false);
    assert_eq!(run_cycle(&mut p, &vec![t(10), t(11)]), vec![11]);
    assert_eq!(run_cycle(&mut p, &vec![t(10), t(11), t(12)]), vec![12]);
    assert_eq!(run_cycle(&mut p, &vec![t(12), t(11), t(10)]), Vec::<i64>::new());
    assert_eq!(seen_ids(&p.seen), vec![10, 11, 12]);
}

#[test]
fn first_run_without_notify_records_baseline() {
    let mut p = Poller::new(SeenState::new(), false);
    assert!(p.first_run);
    let fetched = vec![t(4), t(2), t(8), t(2)];
    let plan = p.begin_tick(&fetched);
    assert!(plan.deliver.is_empty());
    assert!(plan.persist);
    assert!(!p.first_run);
    assert_eq!(seen_ids(&p.seen), vec![2, 4, 8]);
    assert_eq!(run_cycle(&mut p, &vec![t(9), t(8)]), vec![9]);
}

#[test]
fn first_run_with_notify_filters_once_then_steady() {
    let mut p = Poller::new(SeenState::new(), true);
    let plan = p.begin_tick(&vec![t(1), t(3), t(2)]);
    assert_eq!(ids(&plan.deliver), vec![3, 2, 1]);
    assert!(!plan.persist);
    assert!(!p.first_run);
    assert!(!p.first_run_notify);
    for x in &plan.deliver {
        p.mark_delivered(x.id);
    }
    let plan2 = p.begin_tick(&vec![t(3), t(4)]);
    assert_eq!(ids(&plan2.deliver), vec![4]);
    assert!(!plan2.persist);
}

#[test]
fn seen_set_ignores_insertion_order() {
    let a = SeenState::from_ids(&vec![3, 1, 2, 3]);
    let b = SeenState::from_ids(&vec![2, 3, 1]);
    assert_eq!(seen_ids(&a), seen_ids(&b));
    assert!(a.contains(1) && !a.contains(4));
}

#[test]
fn seen_set_round_trips_through_json() {
    let st = SeenState::from_ids(&vec![42, 7, 1000]);
    let bytes = serde_json::to_vec_pretty(&st.seen_ticket_ids).unwrap();
    let back: std::collections::BTreeSet<i64> = serde_json::from_slice(&bytes).unwrap();
    let loaded = SeenState { seen_ticket_ids: back };
    assert_eq!(seen_ids(&loaded), vec![7, 42, 1000]);
}

#[test]
fn seen_set_insert_reports_novelty() {
    let mut s = SeenState::default();
    assert!(s.is_empty());
    assert!(s.insert(5));
    assert!(!s.insert(5));
    s.extend_ids(&vec![6, 5]);
    assert_eq!(seen_ids(&s), vec![5, 6]);
}

#[test]
fn ticket_ids_keep_order() {
    assert_eq!(ticket_ids(&vec![t(3), t(1), t(3)]), vec![3, 1, 3]);
}

#[test]
fn cycle_reports() {
    assert_eq!(cycle_report(Some(2)), CycleReport { ok: true, notified: 2, discard_session: false });
    assert_eq!(cycle_report(None), CycleReport { ok: false, notified: 0, discard_session: true });
}

#[test]
fn stored_ids_rebuild_the_same_set() {
    let st = SeenState::from_ids(&vec![9, 3, 5, 3]);
    let stored = st.ids();
    assert_eq!(stored.len(), 3);
    let mut reordered = stored.clone();
    reordered.reverse();
    let loaded = SeenState::from_ids(&reordered);
    assert_eq!(seen_ids(&loaded), vec![3, 5, 9]);
    assert!(SeenState::new().ids().is_empty());
}

#[test]
fn batch_outcome_saves_once_when_something_was_notified() {
    assert_eq!(batch_outcome(3), BatchOutcome { persist: true, notified: 3 });
    assert_eq!(batch_outcome(0), BatchOutcome { persist: false, notified: 0 });
}

#[test]
fn repeated_identifier_delivers_first_fetched_ticket() {
    let fetched = vec![
        Ticket { id: 8, name: "first".to_string(), requester: None },
        t(9),
        Ticket { id: 8, name: "second".to_string(), requester: None },
    ];
    let batch = unseen_newest_first(&fetched, &SeenState::new());
    assert_eq!(ids(&batch), vec![9, 8]);
    assert_eq!(batch[1].name, "first");
}

#[test]
fn notifying_first_cycle_matches_steady_cycle() {
    let fetched = vec![t(5), t(7), t(6)];
    let mut first = Poller::new(SeenState::from_ids(&vec![6]), true);
    first.first_run = true;
    let mut steady = Poller::new(SeenState::from_ids(&vec![6]), false);
    let a = first.begin_tick(&fetched);
    let b = steady.begin_tick(&fetched);
    assert_eq!(ids(&a.deliver), ids(&b.deliver));
    assert_eq!(ids(&a.deliver), vec![7, 5]);
    assert_eq!(a.persist, b.persist);
    assert_eq!((first.first_run, first.first_run_notify), (steady.first_run, steady.first_run_notify));
}
