//! Cross-Origin Resource Sharing: the headers appended to every response.
use vstd::prelude::*;

use crate::fmt::{decimal, push_decimal};
use crate::headers::HttpHeader;

verus! {

/// How CORS headers are configured.
pub struct CorsConfig {
    pub allow_credentials: bool,
    pub allow_headers: Option<Vec<String>>,
    pub allow_methods: Option<Vec<String>>,
    pub allow_origin: Option<String>,
    pub expose_headers: Option<Vec<String>>,
    pub max_age: Option<u64>,
    pub request_headers: Option<Vec<String>>,
    pub request_method: Option<String>,
}

/// The texts of `v` joined with `, ` between them.
pub open spec fn comma_joined(v: Seq<Seq<char>>) -> Seq<char>
    decreases v.len(),
{
    if v.len() == 0 {
        seq![]
    } else if v.len() == 1 {
        v[0]
    } else {
        comma_joined(v.drop_last()) + seq![',', ' '] + v.last()
    }
}

/// The texts of a vector of strings.
pub open spec fn string_texts(v: Seq<String>) -> Seq<Seq<char>> {
    Seq::new(v.len(), |i: int| v[i]@)
}

/// A character that a header value may hold (`HeaderValue::from_str`
/// accepts it): tab, or anything from space on except DEL.
pub open spec fn is_header_value_char(c: char) -> bool {
    c == '\t' || ((c as u32) >= 32 && (c as u32) != 127)
}

/// Whether every character of `s` may stand in a header value.
pub open spec fn is_header_value_text(s: Seq<char>) -> bool {
    forall|i: int| 0 <= i < s.len() ==> is_header_value_char(#[trigger] s[i])
}

/// The header named `name` with the value `value`, if `value` is present.
pub open spec fn optional_header(name: Seq<char>, value: Option<Seq<char>>) -> Seq<(Seq<char>, Seq<char>)> {
    match value {
        Some(v) => seq![(name, v)],
        None => seq![],
    }
}

/// The joined texts of an optional list.
pub open spec fn joined_option(v: Option<Vec<String>>) -> Option<Seq<char>> {
    match v {
        Some(l) => Some(comma_joined(string_texts(l@))),
        None => None,
    }
}

/// The text of an optional string.
pub open spec fn text_option(v: Option<String>) -> Option<Seq<char>> {
    match v {
        Some(s) => Some(s@),
        None => None,
    }
}

/// The CORS headers of a configuration, in this order: allow-credentials
/// (`true`, when set), allow-headers, allow-methods, allow-origin,
/// expose-headers, max-age, request-headers, request-method, each present
/// when configured, lists joined with `, `.
pub open spec fn cors_header_list(c: CorsConfig) -> Seq<(Seq<char>, Seq<char>)> {
    (if c.allow_credentials {
        seq![("access-control-allow-credentials"@, "true"@)]
    } else {
        seq![]
    }) + optional_header("access-control-allow-headers"@, joined_option(c.allow_headers))
        + optional_header("access-control-allow-methods"@, joined_option(c.allow_methods))
        + optional_header("access-control-allow-origin"@, text_option(c.allow_origin))
        + optional_header("access-control-expose-headers"@, joined_option(c.expose_headers))
        + optional_header(
        "access-control-max-age"@,
        match c.max_age {
            Some(a) => Some(decimal(a as nat)),
            None => None,
        },
    ) + optional_header("access-control-request-headers"@, joined_option(c.request_headers))
        + optional_header("access-control-request-method"@, text_option(c.request_method))
}

/// Whether every configured value may stand in a header value.
pub open spec fn cors_values_valid(c: CorsConfig) -> bool {
    forall|i: int|
        0 <= i < cors_header_list(c).len() ==> is_header_value_text(
            (#[trigger] cors_header_list(c)[i]).1,
        )
}

/// The name and value texts of headers.
pub open spec fn header_texts(v: Seq<HttpHeader>) -> Seq<(Seq<char>, Seq<char>)> {
    Seq::new(v.len(), |i: int| (v[i].0@, v[i].1@))
}

fn join_with_comma(v: &Vec<String>) -> (res: String)
    ensures
        res@ == comma_joined(string_texts(v@)),
{
    let mut res = String::new();
    let mut i: usize = 0;
    assert(string_texts(v@).take(0) =~= Seq::<Seq<char>>::empty());
    while i < v.len()
        invariant
            i <= v.len(),
            res@ == comma_joined(string_texts(v@).take(i as int)),
        decreases v.len() - i,
    {
        let ghost before = res@;
        if i > 0 {
            res.append(", ");
        }
        res.append(v[i].as_str());
        proof {
            reveal_strlit(", ");
            let t = string_texts(v@).take(i + 1);
            assert(t.drop_last() =~= string_texts(v@).take(i as int));
            assert(t.last() == v@[i as int]@);
            assert(res@ =~= comma_joined(t));
        }
        i = i + 1;
    }
    assert(string_texts(v@).take(v.len() as int) =~= string_texts(v@));
    res
}

fn push_header(headers: &mut Vec<HttpHeader>, name: &str, value: String)
    ensures
        header_texts(final(headers)@) == header_texts(old(headers)@).push((name@, value@)),
{
    headers.push(HttpHeader(String::from_str(name), value));
    assert(header_texts(final(headers)@) =~= header_texts(old(headers)@).push((name@, value@)));
}

/// Builds the CORS headers of `cors_config` (see [`cors_header_list`]).
/// Every value must be one a header may carry.
pub fn make_cors_headers(cors_config: &CorsConfig) -> (res: Vec<HttpHeader>)
    requires
        cors_values_valid(*cors_config),
    ensures
        header_texts(res@) == cors_header_list(*cors_config),
{
    cors_header_values(cors_config)
}

fn is_header_value_str(s: &str) -> (res: bool)
    ensures
        res == is_header_value_text(s@),
{
    let chars = crate::text::chars_of(s);
    let mut i: usize = 0;
    while i < chars.len()
        invariant
            i <= chars.len(),
            chars@ == s@,
            forall|k: int| 0 <= k < i ==> is_header_value_char(#[trigger] s@[k]),
        decreases chars.len() - i,
    {
        let c = chars[i];
        if !(c == '\t' || ((c as u32) >= 32 && (c as u32) != 127)) {
            return false;
        }
        i = i + 1;
    }
    true
}

/// Whether every value of `cors_config` may stand in a header value (see
/// [`cors_values_valid`]).
pub fn cors_values_are_valid(cors_config: &CorsConfig) -> (res: bool)
    ensures
        res == cors_values_valid(*cors_config),
{
    let headers = cors_header_values(cors_config);
    let ghost list = cors_header_list(*cors_config);
    let mut i: usize = 0;
    while i < headers.len()
        invariant
            i <= headers.len(),
            header_texts(headers@) == list,
            list == cors_header_list(*cors_config),
            forall|k: int| 0 <= k < i ==> is_header_value_text((#[trigger] list[k]).1),
        decreases headers.len() - i,
    {
        assert(list[i as int].1 == headers@[i as int].1@);
        if !is_header_value_str(headers[i].1.as_str()) {
            return false;
        }
        i = i + 1;
    }
    true
}

fn cors_header_values(cors_config: &CorsConfig) -> (res: Vec<HttpHeader>)
    ensures
        header_texts(res@) == cors_header_list(*cors_config),
{
    let mut headers: Vec<HttpHeader> = Vec::new();
    let ghost c = *cors_config;
    assert(header_texts(headers@) =~= Seq::<(Seq<char>, Seq<char>)>::empty());
    if cors_config.allow_credentials {
        push_header(&mut headers, "access-control-allow-credentials", String::from_str("true"));
    }
    let ghost s1 = header_texts(headers@);
    if let Some(l) = &cors_config.allow_headers {
        push_header(&mut headers, "access-control-allow-headers", join_with_comma(l));
    }
    assert(header_texts(headers@) =~= s1 + optional_header("access-control-allow-headers"@, joined_option(c.allow_headers)));
    let ghost s2 = header_texts(headers@);
    if let Some(l) = &cors_config.allow_methods {
        push_header(&mut headers, "access-control-allow-methods", join_with_comma(l));
    }
    assert(header_texts(headers@) =~= s2 + optional_header("access-control-allow-methods"@, joined_option(c.allow_methods)));
    let ghost s3 = header_texts(headers@);
    if let Some(o) = &cors_config.allow_origin {
        push_header(&mut headers, "access-control-allow-origin", o.clone());
    }
    assert(header_texts(headers@) =~= s3 + optional_header("access-control-allow-origin"@, text_option(c.allow_origin)));
    let ghost s4 = header_texts(headers@);
    if let Some(l) = &cors_config.expose_headers {
        push_header(&mut headers, "access-control-expose-headers", join_with_comma(l));
    }
    assert(header_texts(headers@) =~= s4 + optional_header("access-control-expose-headers"@, joined_option(c.expose_headers)));
    let ghost s5 = header_texts(headers@);
    if let Some(a) = cors_config.max_age {
        let mut t = String::new();
        push_decimal(&mut t, a);
        push_header(&mut headers, "access-control-max-age", t);
    }
    assert(header_texts(headers@) =~= s5 + optional_header(
        "access-control-max-age"@,
        match c.max_age {
            Some(a) => Some(decimal(a as nat)),
            None => None,
        },
    ));
    let ghost s6 = header_texts(headers@);
    if let Some(l) = &cors_config.request_headers {
        push_header(&mut headers, "access-control-request-headers", join_with_comma(l));
    }
    assert(header_texts(headers@) =~= s6 + optional_header("access-control-request-headers"@, joined_option(c.request_headers)));
    let ghost s7 = header_texts(headers@);
    if let Some(m) = &cors_config.request_method {
        push_header(&mut headers, "access-control-request-method", m.clone());
    }
    assert(header_texts(headers@) =~= s7 + optional_header("access-control-request-method"@, text_option(c.request_method)));
    headers
}

/// The headers that allow every origin: allow-origin `*`, allow-methods
/// `GET, POST, PUT, PATCH, DELETE` and allow-headers `Content-Type,
/// Content-Length, Origin`.
pub fn cors_allow_all_headers() -> (res: Vec<HttpHeader>)
    ensures
        header_texts(res@) == seq![
            ("access-control-allow-origin"@, "*"@),
            ("access-control-allow-methods"@, "GET, POST, PUT, PATCH, DELETE"@),
            ("access-control-allow-headers"@, "Content-Type, Content-Length, Origin"@),
        ],
{
    let mut headers: Vec<HttpHeader> = Vec::new();
    push_header(&mut headers, "access-control-allow-origin", String::from_str("*"));
    push_header(
        &mut headers,
        "access-control-allow-methods",
        String::from_str("GET, POST, PUT, PATCH, DELETE"),
    );
    push_header(
        &mut headers,
        "access-control-allow-headers",
        String::from_str("Content-Type, Content-Length, Origin"),
    );
    assert(header_texts(headers@) =~= seq![
        ("access-control-allow-origin"@, "*"@),
        ("access-control-allow-methods"@, "GET, POST, PUT, PATCH, DELETE"@),
        ("access-control-allow-headers"@, "Content-Type, Content-Length, Origin"@),
    ]);
    headers
}

} // verus!
