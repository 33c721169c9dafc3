//! HTTP Basic Authentication of requests, with credentials read by the
//! `http_auth_basic` crate.
use http_auth_basic::Credentials;
use vstd::prelude::*;
use vstd::utf8::is_ascii_chars;

use crate::http_error::HttpErrorResponse;
use crate::text::{ascii_lower, string_of};

verus! {

/// The credentials a request must present.
pub struct BasicAuthConfig {
    pub username: String,
    pub password: String,
}

impl BasicAuthConfig {
    /// The configuration that accepts `username` and `password`.
    pub fn new(username: String, password: String) -> (res: BasicAuthConfig)
        ensures
            res.username@ == username@,
            res.password@ == password@,
    {
        BasicAuthConfig { username, password }
    }
}

/// A byte that a header value may hold when read as text: visible ASCII or
/// horizontal tab.
pub open spec fn is_visible_ascii(b: u8) -> bool {
    (32 <= b && b < 127) || b == 9
}

/// The text of a header value: its bytes as characters when every byte is
/// visible ASCII (or tab), else nothing.
pub open spec fn header_value_text_of(bytes: Seq<u8>) -> Option<Seq<char>> {
    if forall|i: int| 0 <= i < bytes.len() ==> is_visible_ascii(#[trigger] bytes[i]) {
        Some(Seq::new(bytes.len(), |i: int| bytes[i] as char))
    } else {
        None
    }
}

/// Reads a header value as text, as `http::HeaderValue::to_str` does.
pub fn header_value_text(bytes: &[u8]) -> (res: Option<String>)
    ensures
        header_value_text_of(bytes@) matches Some(t) ==> (res matches Some(r) && r@ == t),
        header_value_text_of(bytes@) is None ==> res is None,
{
    let mut chars: Vec<char> = Vec::new();
    let mut i: usize = 0;
    while i < bytes.len()
        invariant
            i <= bytes@.len(),
            chars@ == Seq::new(i as nat, |k: int| bytes@[k] as char),
            forall|k: int| 0 <= k < i ==> is_visible_ascii(#[trigger] bytes@[k]),
        decreases bytes@.len() - i,
    {
        let b = bytes[i];
        if !((32 <= b && b < 127) || b == 9) {
            return None;
        }
        chars.push(b as char);
        assert(chars@ =~= Seq::new((i + 1) as nat, |k: int| bytes@[k] as char));
        i = i + 1;
    }
    Some(string_of(&chars))
}

/// What `http_auth_basic::Credentials::from_header` makes of a header value:
/// the user id and password, or the text of the error.
pub uninterp spec fn basic_auth_credentials(header: Seq<char>) -> Result<
    (Seq<char>, Seq<char>),
    Seq<char>,
>;

/// Whether `r` is a refusal with message `m`.
pub open spec fn refuses_with(r: Result<(String, String), String>, m: Seq<char>) -> bool {
    r matches Err(e) && e@ == m
}

/// The space character.
pub const SPACE: char = ' ';

/// The message of `AuthBasicError::InvalidScheme(scheme)`.
pub open spec fn wrong_scheme_message(scheme: Seq<char>) -> Seq<char> {
    "The scheme provided ("@ + scheme + ") is not Basic"@
}

/// Credentials read from a header.
pub open spec fn accepted(u: Seq<char>, p: Seq<char>) -> Result<(Seq<char>, Seq<char>), Seq<char>> {
    Ok((u, p))
}

/// A header refused with message `m`.
pub open spec fn refused(m: Seq<char>) -> Result<(Seq<char>, Seq<char>), Seq<char>> {
    Err(m)
}

/// The message of `AuthBasicError::InvalidAuthorizationHeader`.
pub open spec fn invalid_header_message() -> Seq<char> {
    "Invalid value provided for the HTTP Authorization header"@
}

/// `http_auth_basic::Credentials::from_header`, with the error rendered by
/// its `Display`.
/// Claimed: the result is the one named by [`basic_auth_credentials`]; a
/// value without a space, or with a second space after the first, is
/// refused as an invalid header; a value whose scheme (before the first
/// space) is ASCII and is not `basic` in any case is refused as a wrong
/// scheme; an accepted user id holds no `:`. How the Base64 part is decoded
/// is left to the name.
#[verifier::external_body]
pub(crate) fn credentials_from_header(header: &str) -> (res: Result<(String, String), String>)
    ensures
        res matches Ok((u, p)) ==> basic_auth_credentials(header@) == accepted(u@, p@),
        res matches Err(m) ==> basic_auth_credentials(header@) == refused(m@),
        !header@.contains(SPACE) ==> refuses_with(res, invalid_header_message()),
        forall|k: int|
            0 <= k < header@.len() && header@[k] == SPACE && !header@.take(k).contains(SPACE)
                && header@.skip(k + 1).contains(SPACE) ==> refuses_with(
                res,
                invalid_header_message(),
            ),
        forall|k: int|
            0 <= k < header@.len() && header@[k] == SPACE && !header@.take(k).contains(SPACE)
                && !header@.skip(k + 1).contains(SPACE) && is_ascii_chars(header@.take(k))
                && ascii_lower(header@.take(k)) != "basic"@ ==> refuses_with(
                res,
                wrong_scheme_message(header@.take(k)),
            ),
        res matches Ok((u, p)) ==> !u@.contains(':'),
{
    match Credentials::from_header(header.to_string()) {
        Ok(c) => Ok((c.user_id, c.password)),
        Err(e) => Err(e.to_string()),
    }
}

/// The answer to a request whose Authorization header was read as
/// `parsed`: let it through when the credentials are the configured ones,
/// else refuse it with 401 and the error text or "Invalid credentials".
pub open spec fn credentials_decision(
    config_user: Seq<char>,
    config_password: Seq<char>,
    parsed: Result<(Seq<char>, Seq<char>), Seq<char>>,
) -> Result<(), (u16, Seq<char>)> {
    match parsed {
        Err(m) => Err((401u16, m)),
        Ok((u, p)) => if u == config_user && p == config_password {
            Ok(())
        } else {
            Err((401u16, "Invalid credentials"@))
        },
    }
}

/// The status and message of a refusal.
pub open spec fn refusal(r: Result<(), HttpErrorResponse>) -> Result<(), (u16, Seq<char>)> {
    match r {
        Ok(()) => Ok(()),
        Err(e) => Err(
            (
                e.status_code,
                match e.message {
                    Some(m) => m@,
                    None => Seq::<char>::empty(),
                },
            ),
        ),
    }
}

/// The answer to a request by its Authorization header bytes: a missing
/// header is refused with 401, a value that is not visible ASCII with 400,
/// and a readable value is decided on as in [`credentials_decision`].
pub open spec fn authorization_decision(
    config_user: Seq<char>,
    config_password: Seq<char>,
    authorization: Option<Seq<u8>>,
) -> Result<(), (u16, Seq<char>)> {
    match authorization {
        None => Err((401u16, "Missing Authorization header"@)),
        Some(b) => match header_value_text_of(b) {
            None => Err((400u16, "Invalid Authorization Header value"@)),
            Some(t) => credentials_decision(config_user, config_password, basic_auth_credentials(t)),
        },
    }
}

/// A request is let through only when its Authorization header is there,
/// reads as text, and carries exactly the configured user id and password.
pub proof fn lemma_only_configured_credentials_pass(
    config_user: Seq<char>,
    config_password: Seq<char>,
    authorization: Option<Seq<u8>>,
)
    requires
        authorization_decision(config_user, config_password, authorization) is Ok,
    ensures
        authorization matches Some(b) && header_value_text_of(b) matches Some(t)
            && basic_auth_credentials(t) == accepted(config_user, config_password),
{
}

impl BasicAuthConfig {
    /// Decides on credentials read from a request (see
    /// [`credentials_decision`]).
    pub fn check_credentials(&self, parsed: Result<(String, String), String>) -> (res: Result<
        (),
        HttpErrorResponse,
    >)
        ensures
            refusal(res) == credentials_decision(
                self.username@,
                self.password@,
                match parsed {
                    Ok((u, p)) => Ok((u@, p@)),
                    Err(m) => Err(m@),
                },
            ),
            res matches Err(e) ==> e.message is Some,
    {
        match parsed {
            Err(m) => Err(HttpErrorResponse::new(401).with_message(m.as_str())),
            Ok((u, p)) => {
                if u == self.username && p == self.password {
                    Ok(())
                } else {
                    Err(HttpErrorResponse::new(401).with_message("Invalid credentials"))
                }
            },
        }
    }

    /// Authenticates a request by the bytes of its Authorization header:
    /// a missing header is refused with 401 "Missing Authorization header",
    /// a value that is not visible ASCII with 400 "Invalid Authorization
    /// Header value", and any other value is read by `http_auth_basic` and
    /// decided on by [`BasicAuthConfig::check_credentials`].
    pub fn authorize(&self, authorization: Option<&[u8]>) -> (res: Result<(), HttpErrorResponse>)
        ensures
            refusal(res) == authorization_decision(
                self.username@,
                self.password@,
                match authorization {
                    Some(b) => Some(b@),
                    None => None,
                },
            ),
    {
        match authorization {
            None => Err(HttpErrorResponse::new(401).with_message("Missing Authorization header")),
            Some(bytes) => match header_value_text(bytes) {
                None => Err(
                    HttpErrorResponse::new(400).with_message("Invalid Authorization Header value"),
                ),
                Some(text) => {
                    let parsed = credentials_from_header(text.as_str());
                    proof {
                        let pv = match &parsed {
                            Ok((u, p)) => Ok((u@, p@)),
                            Err(m) => Err(m@),
                        };
                        assert(pv == basic_auth_credentials(text@));
                    }
                    self.check_credentials(parsed)
                },
            },
        }
    }
}

} // verus!
