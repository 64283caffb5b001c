use medium::client_api::format_join_invite;
use medium::invite::{parse_invite, Invite};
use medium::state::join;

#[test]
fn parses_versioned_join_invite() {
    let invite =
        parse_invite("medium://join?v=1&control=http://127.0.0.1:8080&control_key=ctrl_pub_123")
            .unwrap();

    assert_eq!(invite.version, 1);
    assert_eq!(invite.control_url, "http://127.0.0.1:8080");
    assert_eq!(invite.control_key, "ctrl_pub_123");
}

#[test]
fn rejects_invite_with_unknown_scheme() {
    assert!(parse_invite("overlay://join?v=1").is_err());
}

#[test]
fn rejects_invite_with_unsupported_version() {
    assert!(
        parse_invite("medium://join?v=2&control=http://127.0.0.1:8080&control_key=ctrl_pub_123")
            .is_err()
    );
}

#[test]
fn rejects_invite_without_control_key() {
    let error = parse_invite("medium://join?v=1&control=http://127.0.0.1:8080").unwrap_err();

    assert!(error.message().contains("control key"));
}

#[test]
fn rejects_invite_with_empty_control_key() {
    let error =
        parse_invite("medium://join?v=1&control=http://127.0.0.1:8080&control_key=").unwrap_err();

    assert!(error.message().contains("control key"));
}

#[test]
fn join_rejects_malformed_control_url() {
    let invite = Invite {
        version: 1,
        control_url: "not-a-url".to_string(),
        control_key: "ctrl_pub_123".to_string(),
    };

    assert!(join(&invite, "laptop".to_string()).is_err());
}

#[test]
fn invite_error_messages_name_the_problem() {
    assert_eq!(parse_invite("medium:join").unwrap_err().message(), "invite must include a scheme");
    assert_eq!(
        parse_invite("overlay://join?v=1").unwrap_err().message(),
        "unsupported invite scheme overlay"
    );
    assert_eq!(
        parse_invite("medium://join").unwrap_err().message(),
        "invite must include query parameters"
    );
    assert_eq!(
        parse_invite("medium://pair?v=1").unwrap_err().message(),
        "unsupported invite path pair"
    );
    assert_eq!(
        parse_invite("medium://join?v").unwrap_err().message(),
        "invalid invite parameter v"
    );
    assert_eq!(
        parse_invite("medium://join?v=x&control=http://a&control_key=k").unwrap_err().message(),
        "invalid invite version x"
    );
    assert_eq!(
        parse_invite("medium://join?v=1&control=&control_key=k").unwrap_err().message(),
        "invite control URL cannot be empty"
    );
    assert_eq!(
        parse_invite("medium://join?control=http://a&control_key=k").unwrap_err().message(),
        "invite is missing version"
    );
    assert_eq!(
        parse_invite("medium://join?v=1&control_key=k").unwrap_err().message(),
        "invite is missing control URL"
    );
    assert_eq!(
        parse_invite("medium://join?v=2&control=http://a&control_key=k").unwrap_err().message(),
        "unsupported invite version 2"
    );
}

#[test]
fn unknown_invite_parameters_are_ignored_and_later_ones_win() {
    let invite = parse_invite(
        "medium://join?v=1&extra=1&control=http://a.test&control_key=k1&control_key=k2",
    )
    .unwrap();
    assert_eq!(invite.control_url, "http://a.test");
    assert_eq!(invite.control_key, "k2");
}

#[test]
fn format_join_invite_writes_a_readable_invite() {
    let text = format_join_invite("https://control.example.test/", "ctrl_key").unwrap();
    assert_eq!(
        text,
        "medium://join?v=1&control=https://control.example.test&control_key=ctrl_key"
    );
    let invite = parse_invite(&text).unwrap();
    assert_eq!(invite.version, 1);
    assert_eq!(invite.control_url, "https://control.example.test");
    assert_eq!(invite.control_key, "ctrl_key");
}

#[test]
fn format_join_invite_requires_key_and_valid_url() {
    assert_eq!(
        format_join_invite("http://127.0.0.1:8080", "").unwrap_err().message(),
        "control key cannot be empty"
    );
    assert!(format_join_invite("not-a-url", "k").is_err());
    assert_eq!(
        format_join_invite("ftp://files.example.test", "k").unwrap_err().message(),
        "unsupported control URL scheme ftp"
    );
}

#[test]
fn join_keeps_version_and_normalizes_url() {
    let invite = Invite {
        version: 1,
        control_url: "https://control.example.test/".to_string(),
        control_key: "k".to_string(),
    };
    let state = join(&invite, "laptop".to_string()).unwrap();
    assert_eq!(state.server_url, "https://control.example.test");
    assert_eq!(state.device_name, "laptop");
    assert_eq!(state.bootstrap_code, "");
    assert_eq!(state.invite_version, 1);
}
