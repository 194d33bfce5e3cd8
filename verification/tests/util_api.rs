use fieldnotes::config::Config;
use fieldnotes::endpoint::{get_note_endpoints, Endpoint, HttpMethod};
use fieldnotes::error::AppError;
use fieldnotes::util::{
    get_auth_token, get_note_token, get_share_token, get_token_from_cookie, truncate_auth_token,
};

#[test]
fn generated_tokens_have_documented_lengths() {
    let auth = get_auth_token();
    assert_eq!(auth.len(), 128);
    assert!(auth.chars().all(|c| c.is_ascii_alphanumeric()));
    let share = get_share_token();
    assert_eq!(share.len(), 32);
    assert!(share.chars().all(|c| c.is_ascii_alphanumeric()));
    let note = get_note_token();
    assert_eq!(note.len(), 32);
    assert!(note.chars().all(|c| c.is_ascii_alphanumeric()));
}

#[test]
fn generated_tokens_differ() {
    assert_ne!(get_auth_token(), get_auth_token());
    assert_ne!(get_share_token(), get_share_token());
}

#[test]
fn truncation_keeps_six_chars_each_side() {
    let token = String::from("abcdefghijklmnopqr");
    assert_eq!(truncate_auth_token(&token), "abcdef..mnopqr");
    let twelve = String::from("abcdefghijkl");
    assert_eq!(truncate_auth_token(&twelve), "abcdef..ghijkl");
}

#[test]
fn cookie_value_between_equals_signs_is_the_token() {
    assert_eq!(
        get_token_from_cookie(&String::from("token=abc123")).unwrap(),
        "abc123"
    );
    assert_eq!(
        get_token_from_cookie(&String::from("token=abc;Max-Age=99")).unwrap(),
        "abc;Max-Age"
    );
    assert_eq!(get_token_from_cookie(&String::from("token=")).unwrap(), "");
}

#[test]
fn cookie_without_assignment_is_unauthorized() {
    assert_eq!(
        get_token_from_cookie(&String::from("garbage")).unwrap_err(),
        AppError::Unauthorized
    );
}

#[test]
fn note_endpoints_follow_the_base_url() {
    let base = String::from("https://api.example.test");
    let id = String::from("note42");
    let eps = get_note_endpoints(&base, &id);
    assert_eq!(eps.get.url, "https://api.example.test/notes/note42");
    assert!(matches!(eps.get.method, HttpMethod::GET));
    assert_eq!(eps.update.url, "https://api.example.test/notes/note42");
    assert!(matches!(eps.update.method, HttpMethod::PUT));
    assert_eq!(eps.delete.url, "https://api.example.test/notes/note42");
    assert!(matches!(eps.delete.method, HttpMethod::DELETE));
    assert_eq!(eps.undelete.url, "https://api.example.test/notes/undelete/note42");
    assert!(matches!(eps.undelete.method, HttpMethod::PUT));
}

#[test]
fn endpoint_constructors_set_methods() {
    assert!(matches!(Endpoint::get(String::from("/a")).method, HttpMethod::GET));
    assert!(matches!(Endpoint::put(String::from("/a")).method, HttpMethod::PUT));
    assert!(matches!(Endpoint::delete(String::from("/a")).method, HttpMethod::DELETE));
}

#[test]
fn config_copy_preserves_fields() {
    let cfg = Config {
        listen: String::from("0.0.0.0:8080"),
        base_url: String::from("https://api.example.test"),
        allow_origin: String::from("https://app.example.test"),
    };
    let copy = cfg.get();
    assert_eq!(copy.listen, cfg.listen);
    assert_eq!(copy.base_url, cfg.base_url);
    assert_eq!(copy.allow_origin, cfg.allow_origin);
}
