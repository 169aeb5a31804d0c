use quickmark::autolinks::match_any_email;
use quickmark::autolinks::Protocol;
use quickmark::kagi_plugins::is_url_to_be_proxied;

#[test]
fn plain_email_matches() {
    let r = match_any_email(b"joe.doe@example.com", 0, Protocol::Mailto);
    assert_eq!(r, Some(("joe.doe@example.com".to_string(), 19)));
}

#[test]
fn email_match_stops_at_delimiter() {
    let r = match_any_email(b"joe@example.com, more", 0, Protocol::Mailto);
    assert_eq!(r, Some(("joe@example.com".to_string(), 15)));
}

#[test]
fn domain_needs_a_dot() {
    assert_eq!(match_any_email(b"joe@example", 0, Protocol::Mailto), None);
}

#[test]
fn empty_local_part_fails() {
    assert_eq!(match_any_email(b"@example.com", 0, Protocol::Mailto), None);
}

#[test]
fn second_at_fails_for_mailto_only() {
    assert_eq!(match_any_email(b"a@b@example.com", 0, Protocol::Mailto), None);
    assert!(match_any_email(b"a@b@example.com", 0, Protocol::Xmpp).is_some());
}

#[test]
fn proxied_url_detection() {
    assert!(is_url_to_be_proxied(
        "https://storage.googleapis.com/kagi_stuff/tool_u_123123213.jpg"
    ));
    assert!(is_url_to_be_proxied(
        "https://storage.googleapis.com/kagi_stuff/steve_jobs.png"
    ));
    assert!(!is_url_to_be_proxied("https://www.kagi.com"));
}
