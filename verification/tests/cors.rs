use http_server::cors::{cors_allow_all_headers, cors_values_are_valid, make_cors_headers, CorsConfig};
use http_server::headers::HttpHeader;

fn pairs(headers: Vec<HttpHeader>) -> Vec<(String, String)> {
    headers.into_iter().map(|h| (h.0, h.1)).collect()
}

fn empty_config() -> CorsConfig {
    CorsConfig {
        allow_credentials: false,
        allow_headers: None,
        allow_methods: None,
        allow_origin: None,
        expose_headers: None,
        max_age: None,
        request_headers: None,
        request_method: None,
    }
}

#[test]
fn makes_no_headers_for_an_empty_config() {
    assert!(make_cors_headers(&empty_config()).is_empty());
}

#[test]
fn makes_every_configured_header_in_order() {
    let config = CorsConfig {
        allow_credentials: true,
        allow_headers: Some(vec![String::from("content-type"), String::from("origin")]),
        allow_methods: Some(vec![String::from("GET"), String::from("POST")]),
        allow_origin: Some(String::from("*")),
        expose_headers: Some(vec![String::from("content-length")]),
        max_age: Some(43200),
        request_headers: Some(Vec::new()),
        request_method: Some(String::from("PUT")),
    };
    assert!(cors_values_are_valid(&config));
    let s = |a: &str, b: &str| (String::from(a), String::from(b));
    assert_eq!(
        pairs(make_cors_headers(&config)),
        vec![
            s("access-control-allow-credentials", "true"),
            s("access-control-allow-headers", "content-type, origin"),
            s("access-control-allow-methods", "GET, POST"),
            s("access-control-allow-origin", "*"),
            s("access-control-expose-headers", "content-length"),
            s("access-control-max-age", "43200"),
            s("access-control-request-headers", ""),
            s("access-control-request-method", "PUT"),
        ]
    );
}

#[test]
fn tells_invalid_header_values() {
    let mut config = empty_config();
    config.allow_origin = Some(String::from("bad\norigin"));
    assert!(!cors_values_are_valid(&config));
    config.allow_origin = Some(String::from("https://example.com"));
    assert!(cors_values_are_valid(&config));
}

#[test]
fn allows_every_origin() {
    let s = |a: &str, b: &str| (String::from(a), String::from(b));
    assert_eq!(
        pairs(cors_allow_all_headers()),
        vec![
            s("access-control-allow-origin", "*"),
            s("access-control-allow-methods", "GET, POST, PUT, PATCH, DELETE"),
            s("access-control-allow-headers", "Content-Type, Content-Length, Origin"),
        ]
    );
}
