use glpi_notifier::delivery::{
    delivery_result, first_available, outcome_from_code, show_toast, toast_args, DeliveryError, DeliveryOutcome,
};
use glpi_notifier::ticket::Ticket;

fn ticket(id: i64, name: &str, requester: Option<&str>) -> Ticket {
    Ticket { id, name: name.to_string(), requester: requester.map(|s| s.to_string()) }
}

#[test]
fn toast_content() {
    let t = ticket(12345, "Notification test", Some("Example User"));
    let tpl = Some("https://glpi/front/ticket.form.php?id={id}&again={id}".to_string());
    let r = show_toast(&t, &tpl);
    assert_eq!(r.app_id, "GlpiNotifier");
    assert_eq!(r.title, "GLPI: New ticket #12345");
    assert_eq!(r.body, "Notification test\nBy: Example User");
    assert_eq!(r.ticket_id, 12345);
    assert_eq!(r.open_url, Some("https://glpi/front/ticket.form.php?id=12345&again=12345".to_string()));
}

#[test]
fn toast_stand_ins() {
    let r = show_toast(&ticket(-4, "", None), &None);
    assert_eq!(r.title, "GLPI: New ticket #-4");
    assert_eq!(r.body, "New ticket\nBy: Unknown");
    assert_eq!(r.open_url, None);
}

#[test]
fn outcome_codes() {
    assert_eq!(outcome_from_code(0), Some(DeliveryOutcome::Success));
    assert_eq!(outcome_from_code(1), Some(DeliveryOutcome::Hidden));
    assert_eq!(outcome_from_code(2), Some(DeliveryOutcome::Dismissed));
    assert_eq!(outcome_from_code(3), Some(DeliveryOutcome::TimedOut));
    assert_eq!(outcome_from_code(4), Some(DeliveryOutcome::ButtonPressed));
    assert_eq!(outcome_from_code(5), Some(DeliveryOutcome::TextEntered));
    assert_eq!(outcome_from_code(6), None);
    assert_eq!(outcome_from_code(-1), None);
}

#[test]
fn button_press_opens_ticket_page_once() {
    let t = ticket(77, "x", None);
    let r = show_toast(&t, &Some("https://g/t?id={id}".to_string()));
    assert_eq!(delivery_result(4, &r.open_url), Ok(Some("https://g/t?id=77".to_string())));
    for code in [0, 1, 2, 3, 5] {
        assert_eq!(delivery_result(code, &r.open_url), Ok(None));
    }
    assert_eq!(delivery_result(4, &None), Ok(None));
}

#[test]
fn unrecognized_code_is_failure() {
    assert_eq!(delivery_result(9, &None), Err(DeliveryError::UnrecognizedCode(9)));
    assert_eq!(delivery_result(-1, &Some("u".to_string())), Err(DeliveryError::UnrecognizedCode(-1)));
}

#[test]
fn process_arguments() {
    let r = show_toast(&ticket(5, "Disk", Some("Bo")), &Some("u{id}".to_string()));
    let args = toast_args(&r, &Some("C:/logo.png".to_string()));
    assert_eq!(
        args,
        vec![
            "-appID", "GlpiNotifier", "-id", "5", "-t", "GLPI: New ticket #5", "-m", "Disk\nBy: Bo", "-d", "short",
            "-p", "C:/logo.png", "-b", "Open",
        ]
    );
    let plain = toast_args(&show_toast(&ticket(6, "", None), &None), &None);
    assert_eq!(plain.len(), 10);
    assert_eq!(plain[3], "6");
}

#[test]
fn image_precedence() {
    let c = vec![("a".to_string(), false), ("b".to_string(), true), ("c".to_string(), true)];
    assert_eq!(first_available(&c), Some("b".to_string()));
    assert_eq!(first_available(&vec![("a".to_string(), false)]), None);
    assert_eq!(first_available(&vec![]), None);
}
