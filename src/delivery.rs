use crate::rows::opt_text;
use crate::text::{concatenated, decimal, int_text, replace_all, replaced};
use crate::ticket::Ticket;
use vstd::prelude::*;
use vstd::string::{StrSliceExecFns, StringExecFns};

verus! {

/// The terminal outcomes that the notifier process reports by exit code.
#[derive(Debug, Clone, Copy, PartialEq, Eq, Structural)]
pub enum DeliveryOutcome {
    Success,
    Hidden,
    Dismissed,
    TimedOut,
    ButtonPressed,
    TextEntered,
}

/// A failed delivery.
#[derive(Debug, Clone, Copy, PartialEq, Eq, Structural)]
pub enum DeliveryError {
    /// The process ended with an exit code outside the protocol.
    UnrecognizedCode(i32),
}

/// The outcome that an exit code stands for, if any.
pub open spec fn outcome_of(code: i32) -> Option<DeliveryOutcome> {
    if code == 0 {
        Some(DeliveryOutcome::Success)
    } else if code == 1 {
        Some(DeliveryOutcome::Hidden)
    } else if code == 2 {
        Some(DeliveryOutcome::Dismissed)
    } else if code == 3 {
        Some(DeliveryOutcome::TimedOut)
    } else if code == 4 {
        Some(DeliveryOutcome::ButtonPressed)
    } else if code == 5 {
        Some(DeliveryOutcome::TextEntered)
    } else {
        None
    }
}

/// The outcome that an exit code stands for; `None` for a hard failure.
pub fn outcome_from_code(code: i32) -> (r: Option<DeliveryOutcome>)
    ensures
        r == outcome_of(code),
{
    match code {
        0 => Some(DeliveryOutcome::Success),
        1 => Some(DeliveryOutcome::Hidden),
        2 => Some(DeliveryOutcome::Dismissed),
        3 => Some(DeliveryOutcome::TimedOut),
        4 => Some(DeliveryOutcome::ButtonPressed),
        5 => Some(DeliveryOutcome::TextEntered),
        _ => None,
    }
}

/// One notification to show.
pub struct ToastRequest {
    pub app_id: String,
    pub title: String,
    pub body: String,
    pub ticket_id: i64,
    /// The page that the "Open" button leads to; no button without it.
    pub open_url: Option<String>,
}

/// The title of a ticket's notification.
pub open spec fn toast_title(id: i64) -> Seq<char> {
    "GLPI: New ticket #"@ + decimal(id as int)
}

/// The body of a ticket's notification: its title (or a stand-in when empty)
/// and its requester (or a stand-in when unknown).
pub open spec fn toast_body(t: Ticket) -> Seq<char> {
    let head = if t.name@.len() == 0 { "New ticket"@ } else { t.name@ };
    let who = match t.requester {
        Some(r) => r@,
        None => "Unknown"@,
    };
    head + "\nBy: "@ + who
}

/// The page of ticket `id`: the template with each `{id}` replaced by the identifier.
pub open spec fn ticket_url(template: Seq<char>, id: i64) -> Seq<char> {
    replaced(template, "{id}"@, decimal(id as int))
}

/// `r` is the notification of ticket `t` under the optional URL template.
pub open spec fn is_toast_for(r: ToastRequest, t: Ticket, template: Option<String>) -> bool {
    &&& r.app_id@ == "GlpiNotifier"@
    &&& r.title@ == toast_title(t.id)
    &&& r.body@ == toast_body(t)
    &&& r.ticket_id == t.id
    &&& opt_text(r.open_url) == match template {
        Some(tpl) => Some(ticket_url(tpl@, t.id)),
        None => None,
    }
}

/// The notification of ticket `t`, with an "Open" button when a URL template is set.
pub fn show_toast(t: &Ticket, url_template: &Option<String>) -> (r: ToastRequest)
    ensures
        is_toast_for(r, *t, *url_template),
{
    let id_text = int_text(t.id);
    let title = concatenated("GLPI: New ticket #", id_text.as_str());
    let mut body = if t.name.as_str().unicode_len() == 0 {
        "New ticket".to_owned()
    } else {
        t.name.clone()
    };
    body.append("\nBy: ");
    match &t.requester {
        Some(r) => body.append(r.as_str()),
        None => body.append("Unknown"),
    }
    let open_url = match url_template {
        Some(tpl) => {
            proof {
                reveal_strlit("{id}");
            }
            Some(replace_all(tpl.as_str(), "{id}", id_text.as_str()))
        },
        None => None,
    };
    ToastRequest { app_id: "GlpiNotifier".to_owned(), title, body, ticket_id: t.id, open_url }
}

/// What a delivery that ended with `code` gives: the URL to open when the
/// button was pressed and the notification had one, nothing for the other
/// outcomes, and an error for an unrecognized code.
pub open spec fn delivery_spec(code: i32, open_url: Option<String>, r: Result<Option<String>, DeliveryError>) -> bool {
    match outcome_of(code) {
        None => r == Err::<Option<String>, DeliveryError>(DeliveryError::UnrecognizedCode(code)),
        Some(DeliveryOutcome::ButtonPressed) => r is Ok && opt_text(r->Ok_0) == opt_text(open_url),
        Some(_) => r == Ok::<Option<String>, DeliveryError>(None),
    }
}

/// Interprets the exit code of the notifier process.
pub fn delivery_result(code: i32, open_url: &Option<String>) -> (r: Result<Option<String>, DeliveryError>)
    ensures
        delivery_spec(code, *open_url, r),
{
    match outcome_from_code(code) {
        None => Err(DeliveryError::UnrecognizedCode(code)),
        Some(DeliveryOutcome::ButtonPressed) => match open_url {
            Some(u) => Ok(Some(u.clone())),
            None => Ok(None),
        },
        Some(_) => Ok(None),
    }
}

/// The arguments of the notifier process for `req`, with an optional image.
pub open spec fn toast_arg_list(req: ToastRequest, image: Option<String>) -> Seq<Seq<char>> {
    let base = seq![
        "-appID"@, req.app_id@, "-id"@, decimal(req.ticket_id as int), "-t"@, req.title@,
        "-m"@, req.body@, "-d"@, "short"@,
    ];
    let with_image = match image {
        Some(p) => base + seq!["-p"@, p@],
        None => base,
    };
    if req.open_url is Some {
        with_image + seq!["-b"@, "Open"@]
    } else {
        with_image
    }
}

/// The characters of each string of a list.
pub open spec fn texts(v: Seq<String>) -> Seq<Seq<char>> {
    v.map_values(|s: String| s@)
}

/// The arguments of the notifier process for `req`, with an optional image.
pub fn toast_args(req: &ToastRequest, image: &Option<String>) -> (r: Vec<String>)
    ensures
        texts(r@) == toast_arg_list(*req, *image),
{
    let mut r: Vec<String> = Vec::new();
    r.push("-appID".to_owned());
    r.push(req.app_id.clone());
    r.push("-id".to_owned());
    r.push(int_text(req.ticket_id));
    r.push("-t".to_owned());
    r.push(req.title.clone());
    r.push("-m".to_owned());
    r.push(req.body.clone());
    r.push("-d".to_owned());
    r.push("short".to_owned());
    match image {
        Some(p) => {
            r.push("-p".to_owned());
            r.push(p.clone());
        },
        None => {},
    }
    if req.open_url.is_some() {
        r.push("-b".to_owned());
        r.push("Open".to_owned());
    }
    proof {
        assert(texts(r@) =~= toast_arg_list(*req, *image));
    }
    r
}

/// Only a pressed button has a side effect: it opens the ticket's page, built
/// from the template, once; every other outcome opens nothing.
pub proof fn lemma_button_opens_ticket_page(
    t: Ticket,
    template: Option<String>,
    req: ToastRequest,
    code: i32,
    r: Result<Option<String>, DeliveryError>,
)
    requires
        is_toast_for(req, t, template),
        delivery_spec(code, req.open_url, r),
    ensures
        code == 4 && template is Some ==> r is Ok && opt_text(r->Ok_0) == Some(ticket_url(template->Some_0@, t.id)),
        code == 4 && template is None ==> r == Ok::<Option<String>, DeliveryError>(None),
        code != 4 ==> !(r is Ok && r->Ok_0 is Some),
{
}

/// The index of the first candidate that is available.
pub open spec fn first_available_index(c: Seq<(String, bool)>) -> Option<int>
    decreases c.len(),
{
    if c.len() == 0 {
        None
    } else if c[0].1 {
        Some(0)
    } else {
        offset(first_available_index(c.subrange(1, c.len() as int)), 1)
    }
}

/// An optional index moved by `d`.
pub open spec fn offset(o: Option<int>, d: int) -> Option<int> {
    match o {
        Some(k) => Some(k + d),
        None => None,
    }
}

/// The first available candidate, in order of precedence (an image attachment
/// or the notifier program); `None` when none is.
pub fn first_available(candidates: &Vec<(String, bool)>) -> (r: Option<String>)
    ensures
        match first_available_index(candidates@) {
            Some(k) => r is Some && r->Some_0 == candidates@[k].0,
            None => r is None,
        },
{
    let mut i: usize = 0;
    proof {
        assert(candidates@.subrange(0, candidates@.len() as int) == candidates@);
    }
    while i < candidates.len()
        invariant
            i <= candidates@.len(),
            first_available_index(candidates@) == offset(
                first_available_index(candidates@.subrange(i as int, candidates@.len() as int)),
                i as int,
            ),
        decreases candidates@.len() - i,
    {
        let ghost rest = candidates@.subrange(i as int, candidates@.len() as int);
        proof {
            assert(rest[0] == candidates@[i as int]);
            assert(rest.subrange(1, rest.len() as int) == candidates@.subrange(i + 1, candidates@.len() as int));
        }
        if candidates[i].1 {
            return Some(candidates[i].0.clone());
        }
        i += 1;
    }
    None
}

} // verus!
