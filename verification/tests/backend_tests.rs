use big_red_button::auth::{
    admin_credentials, check_admin_access, configured_credential, refusal_message,
    uses_default_credentials, AdminAccess, Credentials,
};
use big_red_button::events::{EventLog, Timestamp, DESTROYED_STATUS, LAUNCH_MESSAGE};
use big_red_button::pages::INDEX_HTML;

fn creds(u: &str, p: &str) -> Credentials {
    Credentials { username: u.to_string(), password: p.to_string() }
}

#[test]
fn test_index_page() {
    assert!(INDEX_HTML.contains("BIG RED INTERNET BUTTON"));
    assert!(INDEX_HTML.contains("OPERATIONAL"));
}

#[test]
fn test_button_press_creates_event() {
    let mut log = EventLog::new();
    let reply = log.press_button(Some("test-device-001".to_string()));
    assert_eq!(reply.status, "WORLD DESTROYED");
    assert_eq!(reply.event_id, 1);
    assert!(reply.message.contains("Nuclear launch"));
    assert_eq!(log.events()[0].timestamp, reply.timestamp);
}

#[test]
fn test_get_events() {
    let mut log = EventLog::new();
    log.press_button(Some("test-device-002".to_string()));
    let events = log.events();
    assert!(events.len() > 0);
    let first_event = &events[0];
    assert_eq!(first_event.id, 1);
    assert_eq!(first_event.device_id.as_deref(), Some("test-device-002"));
}

#[test]
fn test_admin_page() {
    let log = EventLog::new();
    let page = log.admin_page();
    assert!(page.contains("WORLD DESTRUCTION LOG"));
    assert!(page.contains("TOTAL WORLD DESTRUCTIONS"));
    assert!(page.contains("/api/destroy"));
}

#[test]
fn test_multiple_button_presses() {
    let mut log = EventLog::new();
    for i in 1..=3usize {
        let reply = log.press_button(Some(format!("device-{}", i)));
        assert_eq!(reply.status, DESTROYED_STATUS);
        assert_eq!(reply.event_id, i);
    }
    let events = log.events();
    assert_eq!(events.len(), 3);
    for (i, e) in events.iter().enumerate() {
        assert_eq!(e.id, i + 1);
        assert_eq!(e.device_id, Some(format!("device-{}", i + 1)));
    }
    assert_eq!(log.len(), 3);
    assert!(!log.is_empty());
}

#[test]
fn reply_carries_the_recorded_time() {
    let mut log = EventLog::new();
    let reply = log.press_button(None);
    assert_eq!(reply.status, "WORLD DESTROYED");
    assert_eq!(reply.message, LAUNCH_MESSAGE);
    assert_eq!(log.events()[0].timestamp, reply.timestamp);
    assert_eq!(log.events()[0].device_id, None);
}

#[test]
fn record_uses_given_time() {
    let mut log = EventLog::new();
    let t = Timestamp { seconds: 1_761_989_352, nanos: 203_061_255 };
    let press = log.record(t, Some("esp32-001".to_string()));
    assert_eq!(press.id, 1);
    assert_eq!(press.timestamp, t);
}

#[test]
fn admin_page_without_presses() {
    let log = EventLog::new();
    let page = log.admin_page();
    assert!(page.contains("WORLD DESTRUCTION LOG"));
    assert!(page.contains("<h2>0</h2>"));
    assert!(page.contains("TOTAL WORLD DESTRUCTIONS"));
    assert!(page.contains("No destructions yet. World is safe... for now."));
    assert!(page.contains("/api/destroy"));
    assert!(page.contains("<code>{\"device_id\": \"esp32-001\"}</code>"));
}

#[test]
fn admin_page_lists_newest_first() {
    let mut log = EventLog::new();
    log.record(Timestamp { seconds: 1_761_989_352, nanos: 5 }, Some("esp32-001".to_string()));
    log.record(Timestamp { seconds: 1_761_989_412, nanos: 0 }, None);
    let page = log.admin_page();
    assert!(page.contains("<h2>2</h2>"));
    assert!(page.contains(
        "<tr><td>#2</td><td>2025-11-01 09:30:12 UTC</td><td>Unknown</td></tr>\n<tr><td>#1</td><td>2025-11-01 09:29:12 UTC</td><td>esp32-001</td></tr>"
    ));
    assert!(!page.contains("No destructions yet"));
}

#[test]
fn credentials_default_to_admin() {
    assert_eq!(configured_credential(None), "admin");
    assert_eq!(configured_credential(Some("root".to_string())), "root");
    let c = admin_credentials(None, None);
    assert!(uses_default_credentials(&c));
    let c = admin_credentials(Some("boss".to_string()), None);
    assert_eq!(c.username, "boss");
    assert_eq!(c.password, "admin");
    assert!(!uses_default_credentials(&c));
}

#[test]
fn admin_access_decisions() {
    let expected = creds("admin", "secret");
    assert_eq!(check_admin_access(&None, &expected), AdminAccess::MissingCredentials);
    assert_eq!(check_admin_access(&Some(creds("admin", "secret")), &expected), AdminAccess::Granted);
    assert_eq!(
        check_admin_access(&Some(creds("admin", "admin")), &expected),
        AdminAccess::WrongCredentials
    );
    assert_eq!(
        check_admin_access(&Some(creds("root", "secret")), &expected),
        AdminAccess::WrongCredentials
    );
    assert_eq!(refusal_message(AdminAccess::Granted), None);
    assert_eq!(refusal_message(AdminAccess::MissingCredentials), Some("Unauthorized"));
    assert_eq!(refusal_message(AdminAccess::WrongCredentials), Some("Invalid credentials"));
}
