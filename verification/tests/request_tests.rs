use big_red_button::monitor::DEVICE_ID;
use big_red_button::request::{
    build_destruction_request, event_delivered, is_success_response, DeliveryFailure,
};

#[test]
fn request_for_the_device() {
    let request = build_destruction_request("192.168.1.10", DEVICE_ID);
    assert_eq!(
        request.as_str(),
        "POST /api/destroy HTTP/1.1\r\nHost: 192.168.1.10\r\nContent-Type: application/json\r\nContent-Length: 32\r\nConnection: close\r\n\r\n{\"device_id\":\"esp32-button-001\"}"
    );
}

#[test]
fn content_length_matches_body() {
    for id in ["", "x", "device-with-a-longer-name"] {
        let request = build_destruction_request("10.0.0.1", id);
        let text = request.as_str();
        let (head, body) = text.split_once("\r\n\r\n").unwrap();
        assert!(head.contains(&format!("Content-Length: {}\r\n", body.len())));
        assert_eq!(body, format!("{{\"device_id\":\"{}\"}}", id));
    }
}

#[test]
fn oversized_body_is_cut_at_the_first_piece_that_does_not_fit() {
    let long_id = "d".repeat(600);
    let request = build_destruction_request("10.0.0.1", &long_id);
    let text = request.as_str();
    assert!(text.len() <= 512);
    assert!(text.ends_with("Connection: close\r\n\r\n{\"device_id\":\""));
    assert!(text.contains("Content-Length: 616\r\n"));
}

#[test]
fn success_responses() {
    assert!(is_success_response(b"HTTP/1.1 201 Created\r\n"));
    assert!(is_success_response(b"HTTP/1.0 200 OK\r\n"));
    assert!(!is_success_response(b"HTTP/1.1 401 Unauthorized\r\n"));
    assert!(!is_success_response(b"HTTP/1.1 "));
    assert!(!is_success_response(b""));
    assert!(!is_success_response(b"HTTP/1.1 200 OK\r\n\xff"));
    assert!(is_success_response(b"HTTP/1.1 2"));
}

#[test]
fn delivery_needs_a_successful_answer() {
    assert!(event_delivered(Ok(b"HTTP/1.1 201 Created\r\n\r\n")));
    assert!(!event_delivered(Ok(b"HTTP/1.1 500 Internal Server Error\r\n")));
    assert!(!event_delivered(Err(DeliveryFailure::BadAddress)));
    assert!(!event_delivered(Err(DeliveryFailure::Connect)));
    assert!(!event_delivered(Err(DeliveryFailure::Send)));
    assert!(!event_delivered(Err(DeliveryFailure::Receive)));
}

#[test]
fn request_to_a_host_name() {
    let request = build_destruction_request("arewegoneyet.viitam\u{e4}ki.fi", "esp32-button-001");
    assert!(request.as_str().starts_with("POST /api/destroy HTTP/1.1\r\nHost: arewegoneyet.viitam\u{e4}ki.fi\r\n"));
}
