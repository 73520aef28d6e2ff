use crate::text::{concatenated, count_text, decimal, int_text, parse_i64, parsed_i64, same_text, strip_suffixes, trim_end_matches};
use vstd::prelude::*;
use vstd::string::StringExecFns;

verus! {

/// Whether an HTTP status is a redirection (3xx).
pub open spec fn is_redirection(status: u16) -> bool {
    300 <= status <= 399
}

/// Whether an HTTP status is a success (2xx).
pub open spec fn is_success(status: u16) -> bool {
    200 <= status <= 299
}

/// The base endpoint that a redirect target names: trailing slashes, then
/// trailing `/initSession`, removed.
pub open spec fn redirect_base(location: Seq<char>) -> Seq<char> {
    strip_suffixes(strip_suffixes(location, "/"@), "/initSession"@)
}

/// The authentication state of the ticket service client.
pub struct SessionState {
    pub base_url: String,
    pub app_token: Option<String>,
    pub user_token: String,
    /// Present only after a successful authentication.
    pub session_token: Option<String>,
}

/// What to do after a response to the authentication call.
#[derive(Debug, Clone, Copy, PartialEq, Eq, Structural)]
pub enum InitStep {
    /// Call again, once, against the rewritten base endpoint.
    FollowRedirect,
    /// Read the session token from the response body.
    ReadToken,
    /// Authentication failed for this cycle.
    Fail,
}

/// One header: name and value.
pub type Header = (String, String);

/// The characters of each name and value of a list of pairs.
pub open spec fn pair_texts(v: Seq<(String, String)>) -> Seq<(Seq<char>, Seq<char>)> {
    v.map_values(|p: (String, String)| (p.0@, p.1@))
}

/// The headers of an authenticated call.
pub open spec fn session_header_list(s: SessionState) -> Seq<(Seq<char>, Seq<char>)> {
    let base = seq![("Accept"@, "application/json"@), ("User-Agent"@, "glpi-notifier-rs/0.1"@)];
    let with_session = match s.session_token {
        Some(t) => base.push(("Session-Token"@, t@)),
        None => base,
    };
    match s.app_token {
        Some(a) => with_session.push(("App-Token"@, a@)),
        None => with_session,
    }
}

/// The headers of the authentication call.
pub open spec fn auth_header_list(s: SessionState) -> Seq<(Seq<char>, Seq<char>)> {
    let base = seq![
        ("Accept"@, "application/json"@),
        ("User-Agent"@, "glpi-notifier-rs/0.1"@),
        ("Authorization"@, "user_token "@ + s.user_token@),
    ];
    match s.app_token {
        Some(a) => base.push(("App-Token"@, a@)),
        None => base,
    }
}

/// Appends one header pair.
fn push_pair(v: &mut Vec<(String, String)>, name: &str, value: &str)
    ensures
        pair_texts(final(v)@) == pair_texts(old(v)@).push((name@, value@)),
{
    let ghost before = v@;
    v.push((name.to_owned(), value.to_owned()));
    proof {
        assert(pair_texts(v@) =~= pair_texts(before).push((name@, value@)));
    }
}

impl SessionState {
    /// A client state without a session; the base endpoint loses its trailing slashes.
    pub fn new(base_url: &str, app_token: Option<String>, user_token: String) -> (r: SessionState)
        ensures
            r.base_url@ == strip_suffixes(base_url@, "/"@),
            r.app_token == app_token,
            r.user_token == user_token,
            r.session_token is None,
    {
        proof {
            reveal_strlit("/");
        }
        let base = trim_end_matches(base_url, "/").to_owned();
        SessionState { base_url: base, app_token, user_token, session_token: None }
    }

    /// Whether a call must authenticate first.
    pub fn needs_session(&self) -> (r: bool)
        ensures
            r == self.session_token is None,
    {
        self.session_token.is_none()
    }

    /// Keeps the session token that authentication returned.
    pub fn set_session_token(&mut self, token: String)
        ensures
            final(self).session_token == Some(token),
            final(self).base_url == old(self).base_url,
            final(self).app_token == old(self).app_token,
            final(self).user_token == old(self).user_token,
    {
        self.session_token = Some(token);
    }

    /// Forgets the session, so that the next call authenticates again.
    pub fn discard_session(&mut self)
        ensures
            final(self).session_token is None,
            final(self).base_url == old(self).base_url,
            final(self).app_token == old(self).app_token,
            final(self).user_token == old(self).user_token,
    {
        self.session_token = None;
    }

    /// The URL of `path` under the base endpoint.
    pub fn endpoint(&self, path: &str) -> (r: String)
        ensures
            r@ == self.base_url@ + "/"@ + path@,
    {
        let mut r = concatenated(self.base_url.as_str(), "/");
        r.append(path);
        r
    }

    /// The URL of the authentication call.
    pub fn init_session_url(&self) -> (r: String)
        ensures
            r@ == strip_suffixes(self.base_url@, "/"@) + "/initSession"@,
    {
        proof {
            reveal_strlit("/");
        }
        concatenated(trim_end_matches(self.base_url.as_str(), "/"), "/initSession")
    }

    /// The headers of an authenticated call.
    pub fn session_headers(&self) -> (r: Vec<Header>)
        ensures
            pair_texts(r@) == session_header_list(*self),
    {
        let mut r: Vec<Header> = Vec::new();
        push_pair(&mut r, "Accept", "application/json");
        push_pair(&mut r, "User-Agent", "glpi-notifier-rs/0.1");
        match &self.session_token {
            Some(t) => push_pair(&mut r, "Session-Token", t.as_str()),
            None => {},
        }
        match &self.app_token {
            Some(a) => push_pair(&mut r, "App-Token", a.as_str()),
            None => {},
        }
        proof {
            assert(pair_texts(r@) =~= session_header_list(*self));
        }
        r
    }

    /// The headers of the authentication call.
    pub fn auth_headers(&self) -> (r: Vec<Header>)
        ensures
            pair_texts(r@) == auth_header_list(*self),
    {
        let mut r: Vec<Header> = Vec::new();
        push_pair(&mut r, "Accept", "application/json");
        push_pair(&mut r, "User-Agent", "glpi-notifier-rs/0.1");
        let cred = concatenated("user_token ", self.user_token.as_str());
        push_pair(&mut r, "Authorization", cred.as_str());
        match &self.app_token {
            Some(a) => push_pair(&mut r, "App-Token", a.as_str()),
            None => {},
        }
        proof {
            assert(pair_texts(r@) =~= auth_header_list(*self));
        }
        r
    }

    /// Decides what follows a response to the authentication call. Only the
    /// first attempt may follow a redirect, and only to a named target; it
    /// then rewrites the base endpoint.
    pub fn after_init_response(&mut self, first_attempt: bool, status: u16, location: Option<&str>) -> (r: InitStep)
        ensures
            final(self).app_token == old(self).app_token,
            final(self).user_token == old(self).user_token,
            final(self).session_token == old(self).session_token,
            first_attempt && is_redirection(status) && location is Some ==> {
                &&& r == InitStep::FollowRedirect
                &&& final(self).base_url@ == redirect_base(location->Some_0@)
            },
            !(first_attempt && is_redirection(status) && location is Some) ==> {
                &&& final(self).base_url == old(self).base_url
                &&& r == (if is_success(status) { InitStep::ReadToken } else { InitStep::Fail })
            },
    {
        if first_attempt && 300 <= status && status <= 399 {
            match location {
                Some(loc) => {
                    proof {
                        reveal_strlit("/");
                        reveal_strlit("/initSession");
                    }
                    let b = trim_end_matches(trim_end_matches(loc, "/"), "/initSession");
                    self.base_url = b.to_owned();
                    return InitStep::FollowRedirect;
                },
                None => {},
            }
        }
        if 200 <= status && status <= 299 {
            InitStep::ReadToken
        } else {
            InitStep::Fail
        }
    }
}

/// The query of the newest tickets in status "new" (status code 1), identifier
/// descending, at most `max_rows` rows, with the requester column when known.
pub open spec fn new_tickets_params(id_field: i64, name_field: i64, status_field: i64, requester_field: Option<i64>, max_rows: usize) -> Seq<(Seq<char>, Seq<char>)> {
    let base = seq![
        ("criteria[0][field]"@, decimal(status_field as int)),
        ("criteria[0][searchtype]"@, "equals"@),
        ("criteria[0][value]"@, "1"@),
        ("sort"@, decimal(id_field as int)),
        ("order"@, "DESC"@),
        ("range"@, "0-"@ + decimal(max_rows as int)),
        ("forcedisplay[0]"@, decimal(id_field as int)),
        ("forcedisplay[1]"@, decimal(name_field as int)),
        ("forcedisplay[2]"@, decimal(status_field as int)),
    ];
    match requester_field {
        Some(q) => base.push(("forcedisplay[3]"@, decimal(q as int))),
        None => base,
    }
}

/// The query of the newest tickets in any status.
pub open spec fn recent_tickets_params(id_field: i64, name_field: i64, max_rows: usize) -> Seq<(Seq<char>, Seq<char>)> {
    seq![
        ("sort"@, decimal(id_field as int)),
        ("order"@, "DESC"@),
        ("range"@, "0-"@ + decimal(max_rows as int)),
        ("forcedisplay[0]"@, decimal(id_field as int)),
        ("forcedisplay[1]"@, decimal(name_field as int)),
    ]
}

/// Query parameters of the search for new tickets.
pub fn new_tickets_query(id_field: i64, name_field: i64, status_field: i64, requester_field: Option<i64>, max_rows: usize) -> (r: Vec<(String, String)>)
    ensures
        pair_texts(r@) == new_tickets_params(id_field, name_field, status_field, requester_field, max_rows),
{
    let mut r: Vec<(String, String)> = Vec::new();
    let st = int_text(status_field);
    let idt = int_text(id_field);
    let range = concatenated("0-", count_text(max_rows).as_str());
    push_pair(&mut r, "criteria[0][field]", st.as_str());
    push_pair(&mut r, "criteria[0][searchtype]", "equals");
    push_pair(&mut r, "criteria[0][value]", "1");
    push_pair(&mut r, "sort", idt.as_str());
    push_pair(&mut r, "order", "DESC");
    push_pair(&mut r, "range", range.as_str());
    push_pair(&mut r, "forcedisplay[0]", idt.as_str());
    push_pair(&mut r, "forcedisplay[1]", int_text(name_field).as_str());
    push_pair(&mut r, "forcedisplay[2]", st.as_str());
    match requester_field {
        Some(q) => push_pair(&mut r, "forcedisplay[3]", int_text(q).as_str()),
        None => {},
    }
    proof {
        assert(pair_texts(r@) =~= new_tickets_params(id_field, name_field, status_field, requester_field, max_rows));
    }
    r
}

/// Query parameters of the search for recent tickets.
pub fn recent_tickets_query(id_field: i64, name_field: i64, max_rows: usize) -> (r: Vec<(String, String)>)
    ensures
        pair_texts(r@) == recent_tickets_params(id_field, name_field, max_rows),
{
    let mut r: Vec<(String, String)> = Vec::new();
    let idt = int_text(id_field);
    let range = concatenated("0-", count_text(max_rows).as_str());
    push_pair(&mut r, "sort", idt.as_str());
    push_pair(&mut r, "order", "DESC");
    push_pair(&mut r, "range", range.as_str());
    push_pair(&mut r, "forcedisplay[0]", idt.as_str());
    push_pair(&mut r, "forcedisplay[1]", int_text(name_field).as_str());
    proof {
        assert(pair_texts(r@) =~= recent_tickets_params(id_field, name_field, max_rows));
    }
    r
}

/// One entry of the schema listing: its key (a field id when numeric) and its `uid`.
pub struct SearchOption {
    pub key: String,
    pub uid: Option<String>,
}

/// Whether a schema entry names `uid` under a numeric key.
pub open spec fn entry_matches(e: SearchOption, uid: Seq<char>) -> bool {
    &&& e.uid is Some
    &&& e.uid->Some_0@ == uid
    &&& parsed_i64(e.key@) is Some
}

/// The field id of `uid`: the key of its last entry with a numeric key.
pub open spec fn field_id_of(opts: Seq<SearchOption>, uid: Seq<char>) -> Option<i64>
    decreases opts.len(),
{
    if opts.len() == 0 {
        None
    } else if entry_matches(opts[opts.len() - 1], uid) {
        parsed_i64(opts[opts.len() - 1].key@)
    } else {
        field_id_of(opts.subrange(0, opts.len() - 1), uid)
    }
}

/// The field id of `uid` in the schema listing; `None` when it has none.
pub fn field_id(opts: &Vec<SearchOption>, uid: &str) -> (r: Option<i64>)
    ensures
        r == field_id_of(opts@, uid@),
{
    let mut i: usize = opts.len();
    proof {
        assert(opts@.subrange(0, opts@.len() as int) == opts@);
    }
    while i > 0
        invariant
            i <= opts@.len(),
            field_id_of(opts@, uid@) == field_id_of(opts@.subrange(0, i as int), uid@),
        decreases i,
    {
        let ghost pre = opts@.subrange(0, i as int);
        proof {
            assert(pre[pre.len() - 1] == opts@[i - 1]);
            assert(pre.subrange(0, pre.len() - 1) == opts@.subrange(0, i - 1));
        }
        let e = &opts[i - 1];
        match &e.uid {
            Some(u) => {
                if same_text(u.as_str(), uid) {
                    let k = parse_i64(e.key.as_str());
                    if k.is_some() {
                        return k;
                    }
                }
            },
            None => {},
        }
        i -= 1;
    }
    None
}

/// The field ids that ticket queries use.
#[derive(Debug, Clone, Copy, PartialEq, Eq, Structural)]
pub struct FieldIds {
    pub id: i64,
    pub name: i64,
    pub status: i64,
    /// Queries go without the requester column when the schema lacks it.
    pub requester: Option<i64>,
}

/// A mandatory field that the schema does not give.
#[derive(Debug, Clone, Copy, PartialEq, Eq, Structural)]
pub enum MissingField {
    Id,
    Name,
    Status,
}

/// The field ids of the identifier, title, status and requester of a ticket;
/// the first three are mandatory, checked in that order.
pub fn resolve_ticket_fields(opts: &Vec<SearchOption>) -> (r: Result<FieldIds, MissingField>)
    ensures
        field_id_of(opts@, "Ticket.id"@) is None ==> r == Err::<FieldIds, MissingField>(MissingField::Id),
        field_id_of(opts@, "Ticket.id"@) is Some && field_id_of(opts@, "Ticket.name"@) is None ==> r == Err::<FieldIds, MissingField>(MissingField::Name),
        field_id_of(opts@, "Ticket.id"@) is Some && field_id_of(opts@, "Ticket.name"@) is Some
            && field_id_of(opts@, "Ticket.status"@) is None ==> r == Err::<FieldIds, MissingField>(MissingField::Status),
        field_id_of(opts@, "Ticket.id"@) is Some && field_id_of(opts@, "Ticket.name"@) is Some
            && field_id_of(opts@, "Ticket.status"@) is Some ==> r == Ok::<FieldIds, MissingField>(
            (FieldIds {
                id: field_id_of(opts@, "Ticket.id"@)->Some_0,
                name: field_id_of(opts@, "Ticket.name"@)->Some_0,
                status: field_id_of(opts@, "Ticket.status"@)->Some_0,
                requester: field_id_of(opts@, "Ticket._users_id_recipient"@),
            }),
        ),
{
    let id = match field_id(opts, "Ticket.id") {
        Some(v) => v,
        None => return Err(MissingField::Id),
    };
    let name = match field_id(opts, "Ticket.name") {
        Some(v) => v,
        None => return Err(MissingField::Name),
    };
    let status = match field_id(opts, "Ticket.status") {
        Some(v) => v,
        None => return Err(MissingField::Status),
    };
    let requester = field_id(opts, "Ticket._users_id_recipient");
    Ok(FieldIds { id, name, status, requester })
}

} // verus!
