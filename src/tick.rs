use crate::seen::SeenState;
use crate::ticket::{ticket_ids, Ticket};
use vstd::prelude::*;

verus! {

/// The identifiers that occur in a list of tickets.
pub open spec fn id_set(s: Seq<Ticket>) -> Set<i64> {
    Set::new(|x: i64| exists|k: int| 0 <= k < s.len() && s[k].id == x)
}

/// Tickets ordered newest first: identifiers strictly decrease, so none occurs twice.
pub open spec fn newest_first(s: Seq<Ticket>) -> bool {
    forall|i: int, j: int| 0 <= i < j < s.len() ==> s[i].id > s[j].id
}

/// The fetched identifiers that are not yet in the seen set.
pub open spec fn unseen_ids(tickets: Seq<Ticket>, seen: Set<i64>) -> Set<i64> {
    id_set(tickets).difference(seen)
}

/// `t` is the first of the tickets before `bound` that has its identifier.
pub open spec fn first_occurrence(tickets: Seq<Ticket>, t: Ticket, bound: int) -> bool {
    exists|j: int|
        0 <= j < bound && j < tickets.len() && tickets[j] == t && forall|q: int| 0 <= q < j ==> (#[trigger] tickets[q]).id != t.id
}

/// `batch` is what a steady-state cycle delivers for `tickets` against `seen`:
/// each unseen fetched identifier once, newest first, as the first fetched
/// ticket with that identifier, and nothing else.
pub open spec fn is_delivery_batch(batch: Seq<Ticket>, tickets: Seq<Ticket>, seen: Set<i64>) -> bool {
    &&& newest_first(batch)
    &&& id_set(batch) == unseen_ids(tickets, seen)
    &&& forall|k: int| 0 <= k < batch.len() ==> first_occurrence(tickets, #[trigger] batch[k], tickets.len() as int)
}

/// The fetched tickets whose identifier is not in `seen`, newest first,
/// one per identifier.
pub fn unseen_newest_first(tickets: &Vec<Ticket>, seen: &SeenState) -> (r: Vec<Ticket>)
    ensures
        is_delivery_batch(r@, tickets@, seen@),
{
    let mut r: Vec<Ticket> = Vec::new();
    let mut i: usize = 0;
    while i < tickets.len()
        invariant
            i <= tickets@.len(),
            newest_first(r@),
            id_set(r@) == unseen_ids(tickets@.subrange(0, i as int), seen@),
            forall|k: int| 0 <= k < r@.len() ==> first_occurrence(tickets@, #[trigger] r@[k], i as int),
        decreases tickets@.len() - i,
    {
        let ghost before = r@;
        let t = &tickets[i];
        let fresh = !seen.contains(t.id);
        if fresh {
            let mut p: usize = 0;
            while p < r.len() && r[p].id > t.id
                invariant
                    p <= r@.len(),
                    forall|q: int| 0 <= q < p ==> r@[q].id > t.id,
                decreases r@.len() - p,
            {
                p += 1;
            }
            if p == r.len() || r[p].id != t.id {
                proof {
                    assert(!id_set(before).contains(t.id)) by {
                        if id_set(before).contains(t.id) {
                            let m = choose|m: int| 0 <= m < before.len() && before[m].id == t.id;
                            if m > p {
                                assert(before[p as int].id > before[m].id);
                            }
                        }
                    }
                    assert forall|q: int| 0 <= q < i implies (#[trigger] tickets@[q]).id != t.id by {
                        if tickets@[q].id == t.id {
                            let pre = tickets@.subrange(0, i as int);
                            assert(pre[q] == tickets@[q]);
                            assert(id_set(pre).contains(t.id));
                            assert(unseen_ids(pre, seen@).contains(t.id));
                        }
                    }
                    assert(first_occurrence(tickets@, tickets@[i as int], i + 1));
                }
                let c = t.copied();
                r.insert(p, c);
                proof {
                    assert forall|k: int| 0 <= k < r@.len() implies first_occurrence(tickets@, #[trigger] r@[k], i + 1) by {
                        if k < p {
                            assert(r@[k] == before[k]);
                            assert(first_occurrence(tickets@, before[k], i as int));
                        } else if k > p {
                            assert(r@[k] == before[k - 1]);
                            assert(first_occurrence(tickets@, before[k - 1], i as int));
                        }
                    }
                    assert forall|a: int, b: int| 0 <= a < b < r@.len() implies r@[a].id > r@[b].id by {
                        if b < p {
                        } else if b == p {
                        } else if a < p {
                            assert(before[a].id > t.id);
                            assert(r@[b] == before[b - 1]);
                            if b - 1 > p {
                                assert(before[p as int].id > before[b - 1].id);
                            }
                        } else if a == p {
                            assert(r@[b] == before[b - 1]);
                            if b - 1 > p {
                                assert(before[p as int].id > before[b - 1].id);
                            }
                        } else {
                            assert(r@[a] == before[a - 1]);
                            assert(r@[b] == before[b - 1]);
                        }
                    }
                    assert(id_set(r@) =~= id_set(before).insert(t.id)) by {
                        assert forall|x: i64| id_set(r@).contains(x) implies id_set(before).insert(t.id).contains(x) by {
                            let k = choose|k: int| 0 <= k < r@.len() && r@[k].id == x;
                            if k < p {
                                assert(before[k] == r@[k]);
                            } else if k > p {
                                assert(before[k - 1] == r@[k]);
                            }
                        }
                        assert forall|x: i64| id_set(before).insert(t.id).contains(x) implies id_set(r@).contains(x) by {
                            if x == t.id {
                                assert(r@[p as int].id == x);
                            } else {
                                let k = choose|k: int| 0 <= k < before.len() && before[k].id == x;
                                if k < p {
                                    assert(r@[k] == before[k]);
                                } else {
                                    assert(r@[k + 1] == before[k]);
                                }
                            }
                        }
                    }
                }
            } else {
                proof {
                    assert(id_set(before).contains(t.id));
                    assert(id_set(r@) =~= id_set(before).insert(t.id));
                }
            }
        }
        proof {
            let pre = tickets@.subrange(0, i as int);
            let nxt = tickets@.subrange(0, i as int + 1);
            assert(nxt == pre.push(tickets@[i as int]));
            assert(id_set(nxt) =~= id_set(pre).insert(t.id)) by {
                assert forall|x: i64| id_set(nxt).contains(x) implies id_set(pre).insert(t.id).contains(x) by {
                    let k = choose|k: int| 0 <= k < nxt.len() && nxt[k].id == x;
                    if k < i {
                        assert(pre[k] == nxt[k]);
                    }
                }
                assert forall|x: i64| id_set(pre).insert(t.id).contains(x) implies id_set(nxt).contains(x) by {
                    if x == t.id {
                        assert(nxt[i as int].id == x);
                    } else {
                        let k = choose|k: int| 0 <= k < pre.len() && pre[k].id == x;
                        assert(nxt[k] == pre[k]);
                    }
                }
            }
            if fresh {
                assert(unseen_ids(nxt, seen@) =~= unseen_ids(pre, seen@).insert(t.id));
            } else {
                assert(unseen_ids(nxt, seen@) =~= unseen_ids(pre, seen@));
            }
        }
        i += 1;
    }
    proof {
        assert(tickets@.subrange(0, tickets@.len() as int) == tickets@);
    }
    r
}

/// What one cycle asks of its caller.
pub struct TickPlan {
    /// Tickets to notify, in this order; each is recorded once delivered.
    pub deliver: Vec<Ticket>,
    /// The seen set was filled without notifying and must be saved now.
    pub persist: bool,
}

/// State of the polling engine carried from one cycle to the next.
pub struct Poller {
    pub seen: SeenState,
    /// True until the first cycle has run.
    pub first_run: bool,
    /// Whether the first cycle notifies (else it only records what it finds).
    pub first_run_notify: bool,
}

/// The first cycle records what it finds without notifying.
pub open spec fn baselines(p: Poller) -> bool {
    p.first_run && !p.first_run_notify
}

/// One cycle of `before`, on the fetched `tickets`, gives `plan` and leaves `after`.
pub open spec fn tick_step(before: Poller, tickets: Seq<Ticket>, plan: TickPlan, after: Poller) -> bool {
    &&& !after.first_run
    &&& after.first_run_notify == (before.first_run_notify && !before.first_run)
    &&& if baselines(before) {
        &&& plan.deliver@.len() == 0
        &&& plan.persist
        &&& after.seen@ == before.seen@.union(id_set(tickets))
    } else {
        &&& is_delivery_batch(plan.deliver@, tickets, before.seen@)
        &&& !plan.persist
        &&& after.seen@ == before.seen@
    }
}

impl Poller {
    /// Starts the engine on a loaded seen set: an empty one means a first run.
    pub fn new(seen: SeenState, first_run_notify: bool) -> (r: Poller)
        ensures
            r.seen@ == seen@,
            r.first_run == seen@.is_empty(),
            r.first_run_notify == first_run_notify,
    {
        let first_run = seen.is_empty();
        Poller { seen, first_run, first_run_notify }
    }

    /// Decides one cycle on the tickets that the query returned.
    pub fn begin_tick(&mut self, tickets: &Vec<Ticket>) -> (r: TickPlan)
        ensures
            tick_step(*old(self), tickets@, r, *final(self)),
    {
        if self.first_run && !self.first_run_notify {
            let ids = ticket_ids(tickets);
            self.seen.extend_ids(&ids);
            self.first_run = false;
            proof {
                assert(ids@.to_set() =~= id_set(tickets@)) by {
                    assert forall|x: i64| ids@.to_set().contains(x) implies id_set(tickets@).contains(x) by {
                        let k = choose|k: int| 0 <= k < ids@.len() && ids@[k] == x;
                        assert(tickets@[k].id == x);
                    }
                    assert forall|x: i64| id_set(tickets@).contains(x) implies ids@.to_set().contains(x) by {
                        let k = choose|k: int| 0 <= k < tickets@.len() && tickets@[k].id == x;
                        assert(ids@[k] == x);
                    }
                }
            }
            return TickPlan { deliver: Vec::new(), persist: true };
        }
        if self.first_run {
            self.first_run = false;
            self.first_run_notify = false;
        }
        let deliver = unseen_newest_first(tickets, &self.seen);
        TickPlan { deliver, persist: false }
    }

    /// Records that the ticket `id` was notified.
    pub fn mark_delivered(&mut self, id: i64)
        ensures
            final(self).seen@ == old(self).seen@.insert(id),
            final(self).first_run == old(self).first_run,
            final(self).first_run_notify == old(self).first_run_notify,
    {
        self.seen.insert(id);
    }
}

/// What the polling loop does after a cycle.
#[derive(Debug, Clone, Copy, PartialEq, Eq, Structural)]
pub struct CycleReport {
    /// Liveness: whether the cycle succeeded.
    pub ok: bool,
    /// How many tickets the cycle notified.
    pub notified: usize,
    /// Drop the session so that the next cycle authenticates again.
    pub discard_session: bool,
}

/// The report of a cycle that notified `Some(n)` tickets, or failed (`None`).
pub fn cycle_report(outcome: Option<usize>) -> (r: CycleReport)
    ensures
        outcome is Some ==> r == (CycleReport { ok: true, notified: outcome->Some_0, discard_session: false }),
        outcome is None ==> r == (CycleReport { ok: false, notified: 0, discard_session: true }),
{
    match outcome {
        Some(n) => CycleReport { ok: true, notified: n, discard_session: false },
        None => CycleReport { ok: false, notified: 0, discard_session: true },
    }
}

/// How a delivery batch ends.
#[derive(Debug, Clone, Copy, PartialEq, Eq, Structural)]
pub struct BatchOutcome {
    /// Save the seen set, once for the whole batch.
    pub persist: bool,
    /// How many tickets the cycle notified.
    pub notified: usize,
}

/// The end of a batch in which `delivered` tickets were notified: the seen set
/// is saved once when at least one was, and the count is reported.
pub fn batch_outcome(delivered: usize) -> (r: BatchOutcome)
    ensures
        r.persist == (delivered > 0),
        r.notified == delivered,
{
    BatchOutcome { persist: delivered > 0, notified: delivered }
}

/// Every unseen fetched ticket is in the batch exactly once.
pub proof fn lemma_unseen_delivered_once(batch: Seq<Ticket>, tickets: Seq<Ticket>, seen: Set<i64>, id: i64)
    requires
        is_delivery_batch(batch, tickets, seen),
        id_set(tickets).contains(id),
        !seen.contains(id),
    ensures
        exists|k: int| 0 <= k < batch.len() && batch[k].id == id,
        forall|a: int, b: int| 0 <= a < batch.len() && 0 <= b < batch.len() && batch[a].id == id && batch[b].id == id ==> a == b,
{
    assert(unseen_ids(tickets, seen).contains(id));
    assert(id_set(batch).contains(id));
    assert forall|a: int, b: int| 0 <= a < batch.len() && 0 <= b < batch.len() && batch[a].id == id && batch[b].id == id implies a == b by {
        if a < b {
            assert(batch[a].id > batch[b].id);
        } else if b < a {
            assert(batch[b].id > batch[a].id);
        }
    }
}

/// A seen ticket is never delivered again: a cycle leaves it out of its batch
/// and keeps it in the seen set, so the same holds at every later cycle.
pub proof fn lemma_seen_never_redelivered(before: Poller, tickets: Seq<Ticket>, plan: TickPlan, after: Poller, id: i64)
    requires
        tick_step(before, tickets, plan, after),
        before.seen@.contains(id),
    ensures
        forall|k: int| 0 <= k < plan.deliver@.len() ==> plan.deliver@[k].id != id,
        after.seen@.contains(id),
{
    if !baselines(before) {
        assert forall|k: int| 0 <= k < plan.deliver@.len() implies plan.deliver@[k].id != id by {
            assert(id_set(plan.deliver@).contains(plan.deliver@[k].id));
        }
    }
}

/// Over any run of cycles, with deliveries recorded in between, an identifier
/// seen at the start is delivered by none of them.
pub proof fn lemma_seen_never_redelivered_over_cycles(
    states: Seq<Poller>,
    fetched: Seq<Seq<Ticket>>,
    plans: Seq<TickPlan>,
    id: i64,
)
    requires
        states.len() == 2 * plans.len() + 1,
        fetched.len() == plans.len(),
        states[0].seen@.contains(id),
        forall|c: int| 0 <= c < plans.len() ==> tick_step(#[trigger] states[2 * c], fetched[c], plans[c], states[2 * c + 1]),
        forall|c: int| 0 <= c < plans.len() ==> (#[trigger] states[2 * c + 1]).seen@.subset_of(states[2 * c + 2].seen@),
    ensures
        forall|c: int, k: int| 0 <= c < plans.len() && 0 <= k < plans[c].deliver@.len() ==> (#[trigger] plans[c].deliver@[k]).id != id,
        states.last().seen@.contains(id),
    decreases plans.len(),
{
    if plans.len() > 0 {
        let n = plans.len() - 1;
        lemma_seen_never_redelivered_over_cycles(states.subrange(0, 2 * n + 1), fetched.subrange(0, n), plans.subrange(0, n), id);
        assert(states.subrange(0, 2 * n + 1).last() == states[2 * n]);
        assert(tick_step(states[2 * n], fetched[n], plans[n], states[2 * n + 1]));
        lemma_seen_never_redelivered(states[2 * n], fetched[n], plans[n], states[2 * n + 1], id);
        assert(states[2 * n + 1].seen@.subset_of(states[2 * n + 2].seen@));
        assert forall|c: int, k: int| 0 <= c < plans.len() && 0 <= k < plans[c].deliver@.len() implies (#[trigger] plans[c].deliver@[k]).id != id by {
            if c < n {
                assert(plans.subrange(0, n)[c] == plans[c]);
            }
        }
    }
}

/// A first cycle that does not notify delivers nothing and leaves exactly the
/// fetched identifiers in an initially empty seen set.
pub proof fn lemma_first_run_baseline(before: Poller, tickets: Seq<Ticket>, plan: TickPlan, after: Poller)
    requires
        tick_step(before, tickets, plan, after),
        before.first_run,
        !before.first_run_notify,
        before.seen@.is_empty(),
    ensures
        plan.deliver@.len() == 0,
        after.seen@ == id_set(tickets),
{
    assert(before.seen@ =~= Set::<i64>::empty());
    assert(after.seen@ =~= id_set(tickets));
}

/// A first cycle that notifies filters as in steady state, and the cycle after
/// it is a steady-state cycle whatever the flag was.
pub proof fn lemma_first_run_notify_once(
    before: Poller,
    tickets: Seq<Ticket>,
    plan: TickPlan,
    after: Poller,
    next: Poller,
    tickets2: Seq<Ticket>,
    plan2: TickPlan,
    after2: Poller,
)
    requires
        tick_step(before, tickets, plan, after),
        before.first_run,
        before.first_run_notify,
        next.first_run == after.first_run,
        next.first_run_notify == after.first_run_notify,
        tick_step(next, tickets2, plan2, after2),
    ensures
        is_delivery_batch(plan.deliver@, tickets, before.seen@),
        !plan.persist,
        !after.first_run,
        !after.first_run_notify,
        is_delivery_batch(plan2.deliver@, tickets2, next.seen@),
        !plan2.persist,
        after2.seen@ == next.seen@,
{
}

/// Two newest-first lists with the same identifiers list them in the same order.
pub proof fn lemma_newest_first_unique(a: Seq<Ticket>, b: Seq<Ticket>)
    requires
        newest_first(a),
        newest_first(b),
        id_set(a) == id_set(b),
    ensures
        a.len() == b.len(),
        forall|k: int| 0 <= k < a.len() ==> (#[trigger] a[k]).id == b[k].id,
    decreases a.len(),
{
    if a.len() == 0 || b.len() == 0 {
        if a.len() > 0 {
            assert(id_set(a).contains(a[0].id));
        }
        if b.len() > 0 {
            assert(id_set(b).contains(b[0].id));
        }
    } else {
        assert(a[0].id == b[0].id) by {
            assert(id_set(a).contains(b[0].id));
            assert(id_set(b).contains(a[0].id));
            let ka = choose|k: int| 0 <= k < a.len() && a[k].id == b[0].id;
            let kb = choose|k: int| 0 <= k < b.len() && b[k].id == a[0].id;
            if ka > 0 {
                assert(a[0].id > a[ka].id);
            }
            if kb > 0 {
                assert(b[0].id > b[kb].id);
            }
        }
        let a1 = a.subrange(1, a.len() as int);
        let b1 = b.subrange(1, b.len() as int);
        assert(id_set(a1) =~= id_set(a).remove(a[0].id)) by {
            assert forall|x: i64| id_set(a1).contains(x) implies id_set(a).remove(a[0].id).contains(x) by {
                let k = choose|k: int| 0 <= k < a1.len() && a1[k].id == x;
                assert(a[k + 1].id == x);
                assert(a[0].id > a[k + 1].id);
            }
            assert forall|x: i64| id_set(a).remove(a[0].id).contains(x) implies id_set(a1).contains(x) by {
                let k = choose|k: int| 0 <= k < a.len() && a[k].id == x;
                assert(k != 0);
                assert(a1[k - 1].id == x);
            }
        }
        assert(id_set(b1) =~= id_set(b).remove(b[0].id)) by {
            assert forall|x: i64| id_set(b1).contains(x) implies id_set(b).remove(b[0].id).contains(x) by {
                let k = choose|k: int| 0 <= k < b1.len() && b1[k].id == x;
                assert(b[k + 1].id == x);
                assert(b[0].id > b[k + 1].id);
            }
            assert forall|x: i64| id_set(b).remove(b[0].id).contains(x) implies id_set(b1).contains(x) by {
                let k = choose|k: int| 0 <= k < b.len() && b[k].id == x;
                assert(k != 0);
                assert(b1[k - 1].id == x);
            }
        }
        lemma_newest_first_unique(a1, b1);
        assert forall|k: int| 0 <= k < a.len() implies (#[trigger] a[k]).id == b[k].id by {
            if k > 0 {
                assert(a1[k - 1] == a[k]);
                assert(b1[k - 1] == b[k]);
            }
        }
    }
}

/// A cycle's delivery batch is determined by the fetched tickets and the seen set.
pub proof fn lemma_delivery_batch_unique(b1: Seq<Ticket>, b2: Seq<Ticket>, tickets: Seq<Ticket>, seen: Set<i64>)
    requires
        is_delivery_batch(b1, tickets, seen),
        is_delivery_batch(b2, tickets, seen),
    ensures
        b1 == b2,
{
    lemma_newest_first_unique(b1, b2);
    assert forall|k: int| 0 <= k < b1.len() implies b1[k] == b2[k] by {
        assert(first_occurrence(tickets, b1[k], tickets.len() as int));
        assert(first_occurrence(tickets, b2[k], tickets.len() as int));
        let j1 = choose|j: int|
            0 <= j < tickets.len() && j < tickets.len() && tickets[j] == b1[k] && forall|q: int| 0 <= q < j ==> (#[trigger] tickets[q]).id != b1[k].id;
        let j2 = choose|j: int|
            0 <= j < tickets.len() && j < tickets.len() && tickets[j] == b2[k] && forall|q: int| 0 <= q < j ==> (#[trigger] tickets[q]).id != b2[k].id;
        if j1 < j2 {
            assert(tickets[j1].id != b2[k].id);
        } else if j2 < j1 {
            assert(tickets[j2].id != b1[k].id);
        }
    }
    assert(b1 =~= b2);
}

/// A first cycle that notifies does exactly what a steady-state cycle does on
/// the same seen set and the same fetched tickets: the same deliveries in the
/// same order, no baseline save, the same seen set and flags afterwards.
pub proof fn lemma_first_run_notify_is_steady(
    first: Poller,
    steady: Poller,
    tickets: Seq<Ticket>,
    plan1: TickPlan,
    after1: Poller,
    plan2: TickPlan,
    after2: Poller,
)
    requires
        first.first_run,
        first.first_run_notify,
        !steady.first_run,
        !steady.first_run_notify,
        steady.seen@ == first.seen@,
        tick_step(first, tickets, plan1, after1),
        tick_step(steady, tickets, plan2, after2),
    ensures
        plan1.deliver@ == plan2.deliver@,
        plan1.persist == plan2.persist,
        after1.seen@ == after2.seen@,
        after1.first_run == after2.first_run,
        after1.first_run_notify == after2.first_run_notify,
{
    lemma_delivery_batch_unique(plan1.deliver@, plan2.deliver@, tickets, first.seen@);
}

} // verus!
