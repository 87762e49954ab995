use simple_chat::server::Delivery;
use simple_chat::server::Outcome;
use simple_chat::server::Registry;

fn deliveries(out: Outcome) -> Vec<Delivery> {
    match out {
        Outcome::Deliver(ds) => ds,
        _ => panic!("expected a broadcast"),
    }
}

#[test]
fn two_logged_in_connections_exchange_one_line() {
    let mut reg = Registry::new();
    reg.insert(1);
    reg.insert(2);
    assert!(matches!(reg.handle_line(1, "%login alice"), Outcome::Silent));
    assert!(matches!(reg.handle_line(2, "%login bob"), Outcome::Silent));
    let ds = deliveries(reg.handle_line(1, "hello"));
    assert_eq!(ds.len(), 1);
    assert_eq!(ds[0].to, 2);
    assert_eq!(ds[0].line, "alice: hello");
}

#[test]
fn message_before_login_reaches_nobody_and_draws_no_error() {
    let mut reg = Registry::new();
    reg.insert(1);
    reg.insert(2);
    assert!(matches!(reg.handle_line(2, "%login bob"), Outcome::Silent));
    assert!(matches!(reg.handle_line(1, "hello"), Outcome::Silent));
}

#[test]
fn unidentified_peers_are_skipped() {
    let mut reg = Registry::new();
    reg.insert(1);
    reg.insert(2);
    reg.insert(3);
    assert!(matches!(reg.handle_line(1, "%login alice"), Outcome::Silent));
    assert!(matches!(reg.handle_line(3, "%login carol"), Outcome::Silent));
    let ds = deliveries(reg.handle_line(1, "hi"));
    assert_eq!(ds.len(), 1);
    assert_eq!(ds[0].to, 3);
    assert_eq!(ds[0].line, "alice: hi");
}

#[test]
fn sender_never_receives_its_own_message() {
    let mut reg = Registry::new();
    reg.insert(1);
    reg.insert(2);
    reg.insert(3);
    reg.handle_line(1, "%login alice");
    reg.handle_line(2, "%login bob");
    reg.handle_line(3, "%login carol");
    let ds = deliveries(reg.handle_line(2, "ping"));
    assert_eq!(ds.len(), 2);
    assert!(ds.iter().all(|d| d.to != 2));
    assert!(ds.iter().all(|d| d.line == "bob: ping"));
}

#[test]
fn second_login_overwrites_the_identity() {
    let mut reg = Registry::new();
    reg.insert(1);
    reg.insert(2);
    reg.handle_line(1, "%login alice");
    reg.handle_line(1, "%login anna");
    reg.handle_line(2, "%login bob");
    assert_eq!(reg.identity_of(1), Some("anna".to_string()));
    let ds = deliveries(reg.handle_line(1, "back"));
    assert_eq!(ds.len(), 1);
    assert_eq!(ds[0].line, "anna: back");
}

#[test]
fn parse_error_is_reported_and_the_connection_stays_usable() {
    let mut reg = Registry::new();
    reg.insert(1);
    reg.insert(2);
    reg.handle_line(2, "%login bob");
    match reg.handle_line(1, "%add_user not-a-uuid normal") {
        Outcome::Reply(text) => assert_eq!(text, "invalid uuid"),
        _ => panic!("expected an error reply"),
    }
    assert!(reg.contains(1));
    assert!(matches!(reg.handle_line(1, "%login alice"), Outcome::Silent));
    let ds = deliveries(reg.handle_line(1, "still here"));
    assert_eq!(ds.len(), 1);
    assert_eq!(ds[0].line, "alice: still here");
}

#[test]
fn removed_connection_is_never_written_to() {
    let mut reg = Registry::new();
    reg.insert(1);
    reg.insert(2);
    reg.insert(3);
    reg.handle_line(1, "%login alice");
    reg.handle_line(2, "%login bob");
    reg.handle_line(3, "%login carol");
    reg.remove(2);
    assert!(!reg.contains(2));
    let ds = deliveries(reg.handle_line(1, "anyone?"));
    assert_eq!(ds.len(), 1);
    assert_eq!(ds[0].to, 3);
}

#[test]
fn inert_commands_have_no_effect() {
    let mut reg = Registry::new();
    reg.insert(1);
    reg.insert(2);
    reg.handle_line(1, "%login alice");
    reg.handle_line(2, "%login bob");
    assert!(matches!(reg.handle_line(1, "%show_users"), Outcome::Silent));
    assert!(matches!(
        reg.handle_line(1, "%add_user e634488a-a14e-4166-903c-56ac9f37f8e9 normal"),
        Outcome::Silent
    ));
    assert!(matches!(
        reg.handle_line(1, "%remove_user e634488a-a14e-4166-903c-56ac9f37f8e9"),
        Outcome::Silent
    ));
    assert!(matches!(
        reg.handle_line(1, "@bob say hi"),
        Outcome::Silent
    ));
    assert!(reg.contains(1));
    assert!(reg.contains(2));
    assert_eq!(reg.identity_of(1), Some("alice".to_string()));
}

#[test]
fn reinserting_an_id_resets_its_identity() {
    let mut reg = Registry::new();
    reg.insert(1);
    reg.handle_line(1, "%login alice");
    assert_eq!(reg.identity_of(1), Some("alice".to_string()));
    reg.insert(1);
    assert_eq!(reg.identity_of(1), None);
}
