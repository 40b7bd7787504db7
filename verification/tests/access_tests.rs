use chorus_core::access::{port_candidates, WebAccess, PORT_RANGE_END, PORT_RANGE_START};
use chorus_core::strutil::u16_to_dec;

#[test]
fn port_candidates_cover_range_ascending() {
    let ports = port_candidates(PORT_RANGE_START, PORT_RANGE_END);
    assert_eq!(ports.len(), 100);
    assert_eq!(ports[0], 8800);
    assert_eq!(ports[99], 8899);
    for w in ports.windows(2) {
        assert!(w[0] < w[1]);
    }
}

#[test]
fn u16_renders_as_decimal() {
    assert_eq!(u16_to_dec(0), "0");
    assert_eq!(u16_to_dec(7), "7");
    assert_eq!(u16_to_dec(8807), "8807");
    assert_eq!(u16_to_dec(65535), "65535");
}

#[test]
fn issue_token_installs_and_validates() {
    let mut web = WebAccess::new(8807);
    let issued = web.issue_token(1000);
    assert_eq!(issued.expires_in_secs, 300);
    assert_eq!(issued.token.len(), 36);
    assert!(issued.url.starts_with("http://"));
    assert!(issued.url.ends_with(":8807"));
    assert!(web.gate.validate(&issued.token, 1200));
    assert!(!web.gate.validate(&issued.token, 1300), "expired at the window's end");
}

#[test]
fn reissue_overwrites_previous_token() {
    let mut web = WebAccess::new(8800);
    let first = web.issue_token(1000);
    let second = web.issue_token(1000);
    assert_ne!(first.token, second.token);
    assert!(!web.gate.validate(&first.token, 1100));
    assert!(web.gate.validate(&second.token, 1100));
}

#[test]
fn status_reports_token_and_clients() {
    let mut web = WebAccess::new(8801);
    let status = web.get_status(0);
    assert!(status.running);
    assert_eq!(status.port, 8801);
    assert_eq!(status.connected_clients, 0);
    assert!(!status.has_valid_token);

    web.issue_token(1000);
    web.client_connected();
    web.client_connected();
    web.client_disconnected();
    let status = web.get_status(1100);
    assert!(status.has_valid_token);
    assert_eq!(status.connected_clients, 1);

    web.revoke();
    assert!(!web.get_status(1100).has_valid_token);
}
