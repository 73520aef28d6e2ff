use vstd::prelude::*;

verus! {

/// One row of a ticket query: an immutable snapshot.
#[derive(Debug, Clone)]
pub struct Ticket {
    pub id: i64,
    pub name: String,
    pub requester: Option<String>,
}

impl Ticket {
    /// A field-by-field copy of this ticket.
    pub fn copied(&self) -> (r: Ticket)
        ensures
            r == *self,
    {
        let requester = match &self.requester {
            Some(s) => Some(s.clone()),
            None => None,
        };
        Ticket { id: self.id, name: self.name.clone(), requester }
    }
}

/// The identifiers of a list of tickets, in order.
pub open spec fn ids_of(ts: Seq<Ticket>) -> Seq<i64> {
    ts.map_values(|t: Ticket| t.id)
}

/// Collects the identifiers of `ts`, keeping their order.
pub fn ticket_ids(ts: &Vec<Ticket>) -> (r: Vec<i64>)
    ensures
        r@ == ids_of(ts@),
{
    let mut r: Vec<i64> = Vec::new();
    let mut i: usize = 0;
    while i < ts.len()
        invariant
            i <= ts@.len(),
            r@ == ids_of(ts@.subrange(0, i as int)),
        decreases ts@.len() - i,
    {
        r.push(ts[i].id);
        proof {
            assert(ts@.subrange(0, i as int + 1) == ts@.subrange(0, i as int).push(ts@[i as int]));
        }
        i += 1;
    }
    proof {
        assert(ts@.subrange(0, ts@.len() as int) == ts@);
    }
    r
}

} // verus!
