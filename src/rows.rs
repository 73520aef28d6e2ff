use crate::text::{decimal, int_text, parse_i64, parsed_i64, same_text, trim, trimmed};
use crate::ticket::Ticket;
use vstd::prelude::*;

verus! {

/// A value in a result row, as far as ticket parsing reads it.
pub enum Cell {
    /// A JSON string.
    Text(String),
    /// A JSON number: its value where it is an integer within `i64`, and its printed form.
    Number { int_value: Option<i64>, text: String },
    /// Any other JSON value.
    Other,
}

/// One result row: field keys with their values, keys distinct.
pub struct Row {
    pub fields: Vec<(String, Cell)>,
}

/// The row collection of a query response.
pub enum RowSet {
    /// Rows given as a list.
    Array(Vec<Row>),
    /// Rows given as an object keyed by arbitrary strings.
    Object(Vec<(String, Row)>),
    /// Anything else: no rows.
    Other,
}

/// What a ticket holds: identifier, title, requester.
pub type TicketModel = (i64, Seq<char>, Option<Seq<char>>);

/// The characters of an optional string.
pub open spec fn opt_text(o: Option<String>) -> Option<Seq<char>> {
    match o {
        Some(s) => Some(s@),
        None => None,
    }
}

/// The characters of an optional string slice.
pub open spec fn opt_str(o: Option<&str>) -> Option<Seq<char>> {
    match o {
        Some(s) => Some(s@),
        None => None,
    }
}

/// The model of a ticket.
pub open spec fn ticket_model(t: Ticket) -> TicketModel {
    (t.id, t.name@, opt_text(t.requester))
}

/// The models of a list of tickets.
pub open spec fn ticket_models(ts: Seq<Ticket>) -> Seq<TicketModel> {
    ts.map_values(|t: Ticket| ticket_model(t))
}

/// The value of the first field named `key`.
pub open spec fn lookup(f: Seq<(String, Cell)>, key: Seq<char>) -> Option<Cell>
    decreases f.len(),
{
    if f.len() == 0 {
        None
    } else if f[0].0@ == key {
        Some(f[0].1)
    } else {
        lookup(f.subrange(1, f.len() as int), key)
    }
}

/// A value read as an identifier: a string holding an integer (spaces around
/// it allowed), or an integral number within `i64`.
pub open spec fn cell_int(c: Cell) -> Option<i64> {
    match c {
        Cell::Text(s) => parsed_i64(trimmed(s@)),
        Cell::Number { int_value, .. } => int_value,
        Cell::Other => None,
    }
}

/// A value read as text: a string without surrounding spaces, or a number as printed.
pub open spec fn cell_text(c: Cell) -> Option<Seq<char>> {
    match c {
        Cell::Text(s) => Some(trimmed(s@)),
        Cell::Number { text, .. } => Some(text@),
        Cell::Other => None,
    }
}

/// The ticket that a row describes, if its identifier field parses.
pub open spec fn row_ticket(f: Seq<(String, Cell)>, idk: Seq<char>, namek: Seq<char>, reqk: Option<Seq<char>>) -> Option<TicketModel> {
    match lookup(f, idk) {
        None => None,
        Some(c) => match cell_int(c) {
            None => None,
            Some(id) => {
                let name = match lookup(f, namek) {
                    Some(n) => match cell_text(n) {
                        Some(t) => t,
                        None => Seq::empty(),
                    },
                    None => Seq::empty(),
                };
                let requester = match reqk {
                    Some(k) => match lookup(f, k) {
                        Some(v) => cell_text(v),
                        None => None,
                    },
                    None => None,
                };
                Some((id, name, requester))
            },
        },
    }
}

/// The tickets of the rows that yield one, in row order; the others are dropped.
pub open spec fn parsed_rows(rows: Seq<Row>, idk: Seq<char>, namek: Seq<char>, reqk: Option<Seq<char>>) -> Seq<TicketModel>
    decreases rows.len(),
{
    if rows.len() == 0 {
        Seq::empty()
    } else {
        let init = parsed_rows(rows.subrange(0, rows.len() - 1), idk, namek, reqk);
        match row_ticket(rows[rows.len() - 1].fields@, idk, namek, reqk) {
            Some(t) => init.push(t),
            None => init,
        }
    }
}

/// The rows of a response, flattened into one list.
pub open spec fn rows_of(data: RowSet) -> Seq<Row> {
    match data {
        RowSet::Array(v) => v@,
        RowSet::Object(v) => v@.map_values(|e: (String, Row)| e.1),
        RowSet::Other => Seq::empty(),
    }
}

/// The key under which a row holds the field with the numeric id `f`.
pub open spec fn field_key(f: i64) -> Seq<char> {
    decimal(f as int)
}

/// The key of an optional field.
pub open spec fn opt_key(f: Option<i64>) -> Option<Seq<char>> {
    match f {
        Some(f) => Some(field_key(f)),
        None => None,
    }
}

impl Row {
    /// The value of the first field named `key`.
    pub fn get(&self, key: &str) -> (r: Option<&Cell>)
        ensures
            match r {
                Some(c) => lookup(self.fields@, key@) == Some(*c),
                None => lookup(self.fields@, key@) is None,
            },
    {
        let mut i: usize = 0;
        proof {
            assert(self.fields@.subrange(0, self.fields@.len() as int) == self.fields@);
        }
        while i < self.fields.len()
            invariant
                i <= self.fields@.len(),
                lookup(self.fields@, key@) == lookup(self.fields@.subrange(i as int, self.fields@.len() as int), key@),
            decreases self.fields@.len() - i,
        {
            let ghost rest = self.fields@.subrange(i as int, self.fields@.len() as int);
            proof {
                assert(rest[0] == self.fields@[i as int]);
                assert(rest.subrange(1, rest.len() as int) == self.fields@.subrange(i + 1, self.fields@.len() as int));
            }
            if same_text(self.fields[i].0.as_str(), key) {
                return Some(&self.fields[i].1);
            }
            i += 1;
        }
        None
    }
}

/// A value read as an identifier.
pub fn extract_i64(c: &Cell) -> (r: Option<i64>)
    ensures
        r == cell_int(*c),
{
    match c {
        Cell::Text(s) => parse_i64(trim(s.as_str())),
        Cell::Number { int_value, .. } => *int_value,
        Cell::Other => None,
    }
}

/// A value read as text.
pub fn extract_string(c: &Cell) -> (r: Option<String>)
    ensures
        opt_text(r) == cell_text(*c),
{
    match c {
        Cell::Text(s) => Some(trim(s.as_str()).to_owned()),
        Cell::Number { text, .. } => Some(text.clone()),
        Cell::Other => None,
    }
}

/// The ticket that a row describes; `None` when its identifier is missing or
/// does not parse.
pub fn row_to_ticket(row: &Row, idk: &str, namek: &str, reqk: Option<&str>) -> (r: Option<Ticket>)
    ensures
        match r {
            Some(t) => row_ticket(row.fields@, idk@, namek@, opt_str(reqk)) == Some(ticket_model(t)),
            None => row_ticket(row.fields@, idk@, namek@, opt_str(reqk)) is None,
        },
{
    let id_v = match row.get(idk) {
        Some(v) => v,
        None => return None,
    };
    let id = match extract_i64(id_v) {
        Some(id) => id,
        None => return None,
    };
    let name = match row.get(namek) {
        Some(v) => match extract_string(v) {
            Some(s) => s,
            None => String::new(),
        },
        None => String::new(),
    };
    let requester = match reqk {
        Some(k) => match row.get(k) {
            Some(v) => extract_string(v),
            None => None,
        },
        None => None,
    };
    Some(Ticket { id, name, requester })
}

/// Tickets of all rows, array or object form, that have a parseable
/// identifier, in row order; malformed rows are dropped.
pub fn parse_ticket_rows(data: &RowSet, id_field: i64, name_field: i64, requester_field: Option<i64>) -> (r: Vec<Ticket>)
    ensures
        ticket_models(r@) == parsed_rows(
            rows_of(*data),
            field_key(id_field),
            field_key(name_field),
            opt_key(requester_field),
        ),
{
    let idk = int_text(id_field);
    let namek = int_text(name_field);
    let reqk: Option<String> = match requester_field {
        Some(f) => Some(int_text(f)),
        None => None,
    };
    let mut out: Vec<Ticket> = Vec::new();
    let n: usize = match data {
        RowSet::Array(v) => v.len(),
        RowSet::Object(v) => v.len(),
        RowSet::Other => 0,
    };
    let ghost rows = rows_of(*data);
    let ghost rk = opt_key(requester_field);
    let mut i: usize = 0;
    while i < n
        invariant
            i <= n,
            n == rows.len(),
            rows == rows_of(*data),
            idk@ == field_key(id_field),
            namek@ == field_key(name_field),
            opt_text(reqk) == rk,
            ticket_models(out@) == parsed_rows(rows.subrange(0, i as int), idk@, namek@, rk),
        decreases n - i,
    {
        let row: &Row = match data {
            RowSet::Array(v) => &v[i],
            RowSet::Object(v) => &v[i].1,
            RowSet::Other => {
                proof {
                    assert(false);
                }
                return out;
            },
        };
        let k: Option<&str> = match &reqk {
            Some(s) => Some(s.as_str()),
            None => None,
        };
        proof {
            assert(row == rows[i as int]);
            assert(opt_str(k) == rk);
            assert(rows.subrange(0, i + 1).subrange(0, i as int) == rows.subrange(0, i as int));
        }
        let t = row_to_ticket(row, idk.as_str(), namek.as_str(), k);
        let ghost prev = out@;
        match t {
            Some(t) => {
                out.push(t);
                proof {
                    assert(ticket_models(out@) =~= ticket_models(prev).push(ticket_model(t)));
                }
            },
            None => {},
        }
        i += 1;
    }
    proof {
        assert(rows.subrange(0, n as int) == rows);
    }
    out
}

/// Parsing a concatenation of rows concatenates the parsed tickets.
pub proof fn lemma_parsed_rows_concat(a: Seq<Row>, b: Seq<Row>, idk: Seq<char>, namek: Seq<char>, reqk: Option<Seq<char>>)
    ensures
        parsed_rows(a + b, idk, namek, reqk) == parsed_rows(a, idk, namek, reqk) + parsed_rows(b, idk, namek, reqk),
    decreases b.len(),
{
    if b.len() == 0 {
        assert(a + b == a);
        assert(parsed_rows(a, idk, namek, reqk) + Seq::<TicketModel>::empty() == parsed_rows(a, idk, namek, reqk));
    } else {
        let b0 = b.subrange(0, b.len() - 1);
        lemma_parsed_rows_concat(a, b0, idk, namek, reqk);
        assert((a + b).subrange(0, (a + b).len() - 1) == a + b0);
        assert((a + b)[(a + b).len() - 1] == b[b.len() - 1]);
        let pa = parsed_rows(a, idk, namek, reqk);
        let pb0 = parsed_rows(b0, idk, namek, reqk);
        match row_ticket(b[b.len() - 1].fields@, idk, namek, reqk) {
            Some(t) => {
                assert((pa + pb0).push(t) == pa + pb0.push(t));
            },
            None => {},
        }
    }
}

/// A row without a parseable identifier is left out, and the rows around it
/// are parsed as if it were not there.
pub proof fn lemma_malformed_row_dropped(
    before: Seq<Row>,
    bad: Row,
    after: Seq<Row>,
    idk: Seq<char>,
    namek: Seq<char>,
    reqk: Option<Seq<char>>,
)
    requires
        row_ticket(bad.fields@, idk, namek, reqk) is None,
    ensures
        parsed_rows(before.push(bad) + after, idk, namek, reqk) == parsed_rows(before, idk, namek, reqk) + parsed_rows(after, idk, namek, reqk),
{
    lemma_parsed_rows_concat(before.push(bad), after, idk, namek, reqk);
    assert(before.push(bad).subrange(0, before.len() as int) == before);
}

} // verus!
