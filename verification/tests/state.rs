use medium::state::{api_url, local_device_name, pair, server_base, AppState, PairError};

#[test]
fn app_state_fields_are_kept() {
    let state = AppState {
        server_url: "https://example.test".to_string(),
        device_name: "node-home".to_string(),
        bootstrap_code: "ABC123".to_string(),
        invite_version: 0,
    };
    let copy = state.clone();
    assert_eq!(copy.server_url, "https://example.test");
    assert_eq!(copy.bootstrap_code, "ABC123");
}

#[test]
fn device_name_falls_back_in_order() {
    let names = vec!["  ".to_string(), " laptop ".to_string(), "other".to_string()];
    assert_eq!(local_device_name(&names), "laptop");
    assert_eq!(local_device_name(&vec![]), "medium-client");
    assert_eq!(local_device_name(&vec!["".to_string()]), "medium-client");
}

#[test]
fn pairing_takes_token_then_code_then_invite() {
    let s = pair("https://c.test//", "dev", "", "tok", "code").unwrap();
    assert_eq!(s.server_url, "https://c.test");
    assert_eq!(s.bootstrap_code, "tok");
    assert_eq!(s.invite_version, 0);
    assert_eq!(pair("https://c.test", "dev", "", "", "code").unwrap().bootstrap_code, "code");
    assert_eq!(pair("https://c.test", "dev", "inv", "", "").unwrap().bootstrap_code, "");
    let error = pair("https://c.test", "dev", "", "", "").unwrap_err();
    assert_eq!(error, PairError::MissingToken);
    assert_eq!(error.message(), "bootstrap response is missing a token");
}

#[test]
fn api_urls_drop_trailing_slashes() {
    assert_eq!(api_url("https://c.test/", "/api/devices"), "https://c.test/api/devices");
    assert_eq!(server_base("https://c.test///"), "https://c.test");
}
