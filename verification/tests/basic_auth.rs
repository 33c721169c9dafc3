use http_server::basic_auth::{header_value_text, BasicAuthConfig};
use http_server::http_error::HttpErrorResponse;

fn config() -> BasicAuthConfig {
    BasicAuthConfig::new(String::from("john"), String::from("appleseed"))
}

fn refusal(res: Result<(), HttpErrorResponse>) -> (u16, String) {
    let err = res.unwrap_err();
    (err.status_code, err.message.unwrap())
}

#[test]
fn lets_the_configured_credentials_through() {
    // "john:appleseed" in Base64.
    let header = b"Basic am9objphcHBsZXNlZWQ=";
    assert!(config().authorize(Some(&header[..])).is_ok());
}

#[test]
fn refuses_wrong_credentials() {
    // "somebody:else" in Base64.
    let header = b"Basic c29tZWJvZHk6ZWxzZQ==";
    assert_eq!(
        refusal(config().authorize(Some(&header[..]))),
        (401, String::from("Invalid credentials"))
    );
}

#[test]
fn refuses_a_missing_header() {
    assert_eq!(
        refusal(config().authorize(None)),
        (401, String::from("Missing Authorization header"))
    );
}

#[test]
fn refuses_a_header_that_is_not_visible_ascii() {
    let header = "Basic am9obj\u{e9}".as_bytes();
    assert_eq!(
        refusal(config().authorize(Some(header))),
        (400, String::from("Invalid Authorization Header value"))
    );
}

#[test]
fn refuses_another_scheme() {
    let header = b"Bearer abc";
    assert_eq!(
        refusal(config().authorize(Some(&header[..]))),
        (401, String::from("The scheme provided (Bearer) is not Basic"))
    );
}

#[test]
fn refuses_a_header_without_a_scheme() {
    let header = b"am9objphcHBsZXNlZWQ=";
    assert_eq!(
        refusal(config().authorize(Some(&header[..]))),
        (401, String::from("Invalid value provided for the HTTP Authorization header"))
    );
}

#[test]
fn checks_parsed_credentials() {
    let c = config();
    assert!(c.check_credentials(Ok((String::from("john"), String::from("appleseed")))).is_ok());
    assert_eq!(
        refusal(c.check_credentials(Ok((String::from("john"), String::from("nope"))))),
        (401, String::from("Invalid credentials"))
    );
    assert_eq!(
        refusal(c.check_credentials(Err(String::from("bad header")))),
        (401, String::from("bad header"))
    );
}

#[test]
fn reads_header_values_as_text() {
    assert_eq!(header_value_text(b"Basic abc\tdef"), Some(String::from("Basic abc\tdef")));
    assert_eq!(header_value_text(b""), Some(String::new()));
    assert_eq!(header_value_text(b"line\nbreak"), None);
    assert_eq!(header_value_text(&[0x80]), None);
}
