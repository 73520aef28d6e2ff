use std::collections::BTreeSet;
use vstd::prelude::*;
use vstd::std_specs::iter::IteratorSpec;

verus! {

/// Identifiers of the tickets that were already notified.
///
/// The set only grows: identifiers are added, never removed.
#[derive(Debug)]
pub struct SeenState {
    pub seen_ticket_ids: BTreeSet<i64>,
}

impl View for SeenState {
    type V = Set<i64>;

    open spec fn view(&self) -> Set<i64> {
        self.seen_ticket_ids@
    }
}

impl Default for SeenState {
    fn default() -> (r: SeenState)
        ensures
            r@ == Set::<i64>::empty(),
    {
        SeenState::new()
    }
}

impl SeenState {
    /// An empty seen set.
    pub fn new() -> (r: SeenState)
        ensures
            r@ == Set::<i64>::empty(),
    {
        SeenState { seen_ticket_ids: BTreeSet::new() }
    }

    /// Builds a seen set holding exactly the identifiers of `ids`.
    pub fn from_ids(ids: &Vec<i64>) -> (r: SeenState)
        ensures
            r@ == ids@.to_set(),
    {
        let mut r = SeenState::new();
        r.extend_ids(ids);
        proof {
            assert(r@ =~= ids@.to_set());
        }
        r
    }

    /// Whether `id` was already notified.
    pub fn contains(&self, id: i64) -> (r: bool)
        ensures
            r == self@.contains(id),
    {
        broadcast use vstd::std_specs::btree::group_btree_axioms;
        self.seen_ticket_ids.contains(&id)
    }

    /// Records `id` as notified; returns whether it was new.
    pub fn insert(&mut self, id: i64) -> (r: bool)
        ensures
            final(self)@ == old(self)@.insert(id),
            r == !old(self)@.contains(id),
    {
        self.seen_ticket_ids.insert(id)
    }

    /// Records every identifier of `ids` as notified.
    pub fn extend_ids(&mut self, ids: &Vec<i64>)
        ensures
            final(self)@ == old(self)@.union(ids@.to_set()),
    {
        let ghost start = self@;
        let mut i: usize = 0;
        while i < ids.len()
            invariant
                i <= ids@.len(),
                self@ == start.union(ids@.subrange(0, i as int).to_set()),
            decreases ids@.len() - i,
        {
            self.insert(ids[i]);
            proof {
                let pre = ids@.subrange(0, i as int);
                let nxt = ids@.subrange(0, i as int + 1);
                assert(nxt == pre.push(ids@[i as int]));
                assert(nxt.to_set() =~= pre.to_set().insert(ids@[i as int])) by {
                    pre.lemma_push_to_set_commute(ids@[i as int]);
                }
                assert(self@ =~= start.union(nxt.to_set()));
            }
            i += 1;
        }
        proof {
            assert(ids@.subrange(0, ids@.len() as int) == ids@);
        }
    }

    /// The notified identifiers, each once: the stored form of the set.
    pub fn ids(&self) -> (r: Vec<i64>)
        ensures
            r@.to_set() == self@,
            r@.no_duplicates(),
    {
        broadcast use vstd::std_specs::btree::group_btree_axioms;
        let mut r: Vec<i64> = Vec::new();
        let ghost keys = vstd::std_specs::btree::spec_btree_keys_iter(&self.seen_ticket_ids).remaining();
        proof {
            vstd::std_specs::btree::axiom_spec_btree_keys_iter(&self.seen_ticket_ids);
        }
        for x in iter: self.seen_ticket_ids.iter()
            invariant
                iter.seq() == keys,
                r@ == iter.seq().subrange(0, iter.index() as int).map_values(|p: &i64| *p),
        {
            r.push(*x);
        }
        proof {
            assert(r@ =~= keys.unref());
        }
        r
    }

    /// Whether nothing was notified yet.
    pub fn is_empty(&self) -> (r: bool)
        ensures
            r == self@.is_empty(),
    {
        self.seen_ticket_ids.is_empty()
    }
}

/// Storing a seen set as a list of its identifiers and rebuilding it from that
/// list, whatever the order (or repetition) of the list, gives the same set.
pub proof fn lemma_seen_round_trip(saved: SeenState, stored: Seq<i64>, reordered: Seq<i64>, loaded: SeenState)
    requires
        stored.to_set() == saved@,
        forall|x: i64| reordered.contains(x) <==> stored.contains(x),
        loaded@ == reordered.to_set(),
    ensures
        loaded@ == saved@,
{
    assert(reordered.to_set() =~= stored.to_set());
}

} // verus!
