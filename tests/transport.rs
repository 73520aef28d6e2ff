use glpi_notifier::transport::{
    field_id, new_tickets_query, recent_tickets_query, resolve_ticket_fields, FieldIds, InitStep, MissingField,
    SearchOption, SessionState,
};

fn pairs(v: &[(&str, &str)]) -> Vec<(String, String)> {
    v.iter().map(|(a, b)| (a.to_string(), b.to_string())).collect()
}

fn opt(key: &str, uid: Option<&str>) -> SearchOption {
    SearchOption { key: key.to_string(), uid: uid.map(|u| u.to_string()) }
}

#[test]
fn session_lifecycle() {
    let mut s = SessionState::new("https://h/apirest.php//", Some("app".to_string()), "user".to_string());
    assert_eq!(s.base_url, "https://h/apirest.php");
    assert!(s.needs_session());
    assert_eq!(s.init_session_url(), "https://h/apirest.php/initSession");
    assert_eq!(
        s.auth_headers(),
        pairs(&[
            ("Accept", "application/json"),
            ("User-Agent", "glpi-notifier-rs/0.1"),
            ("Authorization", "user_token user"),
            ("App-Token", "app"),
        ])
    );
    s.set_session_token("tok".to_string());
    assert!(!s.needs_session());
    assert_eq!(
        s.session_headers(),
        pairs(&[
            ("Accept", "application/json"),
            ("User-Agent", "glpi-notifier-rs/0.1"),
            ("Session-Token", "tok"),
            ("App-Token", "app"),
        ])
    );
    assert_eq!(s.endpoint("search/Ticket"), "https://h/apirest.php/search/Ticket");
    s.discard_session();
    assert!(s.needs_session());
    assert_eq!(s.session_headers().len(), 3);
}

#[test]
fn redirect_is_followed_once() {
    let mut s = SessionState::new("http://old", None, "u".to_string());
    assert_eq!(s.after_init_response(true, 301, Some("https://new/api/initSession/")), InitStep::FollowRedirect);
    assert_eq!(s.base_url, "https://new/api");
    assert_eq!(s.after_init_response(false, 302, Some("https://other/")), InitStep::Fail);
    assert_eq!(s.base_url, "https://new/api");
    assert_eq!(s.after_init_response(false, 200, None), InitStep::ReadToken);
}

#[test]
fn init_response_outcomes() {
    let mut s = SessionState::new("http://h", None, "u".to_string());
    assert_eq!(s.after_init_response(true, 200, None), InitStep::ReadToken);
    assert_eq!(s.after_init_response(true, 401, None), InitStep::Fail);
    assert_eq!(s.after_init_response(true, 302, None), InitStep::Fail);
    assert_eq!(s.base_url, "http://h");
}

#[test]
fn new_tickets_parameters() {
    let q = new_tickets_query(2, 1, 12, Some(22), 200);
    assert_eq!(
        q,
        pairs(&[
            ("criteria[0][field]", "12"),
            ("criteria[0][searchtype]", "equals"),
            ("criteria[0][value]", "1"),
            ("sort", "2"),
            ("order", "DESC"),
            ("range", "0-200"),
            ("forcedisplay[0]", "2"),
            ("forcedisplay[1]", "1"),
            ("forcedisplay[2]", "12"),
            ("forcedisplay[3]", "22"),
        ])
    );
    assert_eq!(new_tickets_query(2, 1, 12, None, 5).len(), 9);
}

#[test]
fn recent_tickets_parameters() {
    assert_eq!(
        recent_tickets_query(2, 1, 10),
        pairs(&[
            ("sort", "2"),
            ("order", "DESC"),
            ("range", "0-10"),
            ("forcedisplay[0]", "2"),
            ("forcedisplay[1]", "1"),
        ])
    );
}

#[test]
fn field_resolution() {
    let opts = vec![
        opt("common", None),
        opt("2", Some("Ticket.id")),
        opt("1", Some("Ticket.name")),
        opt("x", Some("Ticket.status")),
        opt("12", Some("Ticket.status")),
        opt("22", Some("Ticket._users_id_recipient")),
    ];
    assert_eq!(field_id(&opts, "Ticket.status"), Some(12));
    assert_eq!(field_id(&opts, "Ticket.other"), None);
    assert_eq!(resolve_ticket_fields(&opts), Ok(FieldIds { id: 2, name: 1, status: 12, requester: Some(22) }));
    let no_req = vec![opt("2", Some("Ticket.id")), opt("1", Some("Ticket.name")), opt("12", Some("Ticket.status"))];
    assert_eq!(resolve_ticket_fields(&no_req), Ok(FieldIds { id: 2, name: 1, status: 12, requester: None }));
}

#[test]
fn missing_mandatory_fields() {
    assert_eq!(resolve_ticket_fields(&vec![]), Err(MissingField::Id));
    assert_eq!(resolve_ticket_fields(&vec![opt("2", Some("Ticket.id"))]), Err(MissingField::Name));
    assert_eq!(
        resolve_ticket_fields(&vec![opt("2", Some("Ticket.id")), opt("1", Some("Ticket.name"))]),
        Err(MissingField::Status)
    );
}

#[test]
fn retry_goes_to_rewritten_base_as_stored() {
    let mut s = SessionState::new("http://old", None, "u".to_string());
    assert_eq!(s.after_init_response(true, 307, Some("h//initSession")), InitStep::FollowRedirect);
    assert_eq!(s.base_url, "h/");
    assert_eq!(s.endpoint("initSession"), "h//initSession");
}
