use submerge::api::{
    api_get_config, api_login, api_update_config, html_index, user_authentication, AppState,
    StaticPage,
};
use submerge::document::{Document, Entry};
use submerge::error::ConfigError;
use submerge::remote::{decode_remote_payload, decoded_text};

fn state(user: &str, password: &str) -> AppState {
    AppState {
        username: user.to_string(),
        password: password.to_string(),
        url: "http://example.invalid/sub".to_string(),
        config_path: "config.yaml".to_string(),
    }
}

fn sample() -> Document {
    Document::Mapping(vec![Entry {
        key: Document::Str("prepend-proxies".to_string()),
        value: Document::Sequence(vec![Document::Str("x".to_string())]),
    }])
}

#[test]
fn matching_credentials_are_accepted() {
    assert_eq!(user_authentication(&state("root", "pw"), "root", "pw"), Ok(()));
}

#[test]
fn wrong_password_is_rejected() {
    assert_eq!(
        user_authentication(&state("root", "pw"), "root", "PW"),
        Err(ConfigError::Auth)
    );
}

#[test]
fn missing_credentials_are_rejected() {
    assert_eq!(user_authentication(&state("root", "pw"), "", ""), Err(ConfigError::Auth));
}

#[test]
fn empty_configuration_accepts_anyone() {
    assert_eq!(user_authentication(&state("", ""), "someone", "anything"), Ok(()));
}

#[test]
fn login_reply() {
    assert_eq!(api_login(&state("u", "p"), "u", "p"), Ok("login success".to_string()));
    assert_eq!(api_login(&state("u", "p"), "u", "x"), Err(ConfigError::Auth));
}

#[test]
fn unauthenticated_get_config_is_rejected() {
    let local = sample();
    let r = api_get_config(&state("root", "password"), &local, "", "");
    assert_eq!(r, Err(ConfigError::Auth));
    assert_eq!(local, sample());
}

#[test]
fn authenticated_get_config_returns_snapshot() {
    let local = sample();
    let r = api_get_config(&state("root", "password"), &local, "root", "password");
    assert_eq!(r, Ok(sample()));
}

#[test]
fn malformed_update_is_rejected() {
    let mut local = sample();
    let r = api_update_config(&state("root", "pw"), &mut local, "root", "pw", None);
    assert_eq!(r, Err(ConfigError::Parse));
    assert_eq!(local, sample());
}

#[test]
fn unauthenticated_update_is_rejected() {
    let mut local = sample();
    let r = api_update_config(
        &state("root", "pw"),
        &mut local,
        "root",
        "bad",
        Some(Document::empty_mapping()),
    );
    assert_eq!(r, Err(ConfigError::Auth));
    assert_eq!(local, sample());
}

#[test]
fn update_replaces_whole_document() {
    let mut local = sample();
    let r = api_update_config(
        &state("root", "pw"),
        &mut local,
        "root",
        "pw",
        Some(Document::empty_mapping()),
    );
    assert_eq!(r, Ok(Document::Mapping(vec![])));
    assert_eq!(local, Document::Mapping(vec![]));
}

#[test]
fn static_routes() {
    assert_eq!(html_index("favicon.ico"), StaticPage::Favicon);
    assert_eq!(html_index("index.html"), StaticPage::Index);
    assert_eq!(html_index(""), StaticPage::RedirectToIndex);
    assert_eq!(html_index("index.htm"), StaticPage::RedirectToIndex);
}

#[test]
fn remote_payload_is_trimmed_and_decoded() {
    assert_eq!(
        decode_remote_payload("  cHJveGllczogW10K\n"),
        Ok("proxies: []\n".to_string())
    );
}

#[test]
fn remote_payload_unicode_whitespace_is_trimmed() {
    assert_eq!(
        decode_remote_payload("\u{3000}\tcHJveGllczogW10K\u{a0}\r\n"),
        Ok("proxies: []\n".to_string())
    );
}

#[test]
fn remote_payload_empty_is_empty_text() {
    assert_eq!(decode_remote_payload("\n"), Ok(String::new()));
}

#[test]
fn remote_payload_not_base64() {
    assert_eq!(decode_remote_payload("not base64!"), Err(ConfigError::Decode));
}

#[test]
fn remote_payload_not_utf8() {
    assert_eq!(decode_remote_payload("/w=="), Err(ConfigError::Decode));
}

#[test]
fn decoded_text_checks_utf8() {
    assert_eq!(decoded_text(vec![104, 105]), Ok("hi".to_string()));
    assert_eq!(decoded_text(vec![0xC3]), Err(ConfigError::Decode));
}
