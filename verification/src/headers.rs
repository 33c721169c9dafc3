//! Response headers: entity tags, cache control directives and the headers
//! of a file response.
use chrono::DateTime;
use vstd::prelude::*;
use vstd::utf8::{encode_utf8, is_ascii_chars, is_ascii_chars_encode_utf8};

use crate::fmt::{decimal, hexadecimal, push_decimal, push_hexadecimal};
use crate::text::push_char;

verus! {

/// A header as its name and its value.
pub struct HttpHeader(pub String, pub String);

/// A byte that may stand in an entity tag: `!`, the characters from `#` to
/// `~`, and every byte from `0x80` on.
pub open spec fn is_tag_byte(c: u8) -> bool {
    c == 0x21 || (0x23 <= c && c <= 0x7e) || c >= 0x80
}

/// Whether every byte of `s` may stand in an entity tag.
pub open spec fn is_valid_tag_text(s: Seq<char>) -> bool {
    forall|i: int| 0 <= i < encode_utf8(s).len() ==> is_tag_byte(#[trigger] encode_utf8(s)[i])
}

/// The opaque part of a file's strong entity tag: the hexadecimal digits of
/// the milliseconds within the second of its creation and of its last
/// modification, then of its length.
pub open spec fn metadata_tag(created_millis: nat, modified_millis: nat, len: nat) -> Seq<char> {
    hexadecimal(created_millis) + hexadecimal(modified_millis) + hexadecimal(len)
}

/// `text` as a quoted string: between double quotes.
pub open spec fn quoted(text: Seq<char>) -> Seq<char> {
    seq!['"'] + text + seq!['"']
}

/// An entity tag (the value of an `ETag` header).
pub struct ETag {
    value: String,
}

impl View for ETag {
    type V = Seq<char>;

    closed spec fn view(&self) -> Seq<char> {
        self.value@
    }
}

proof fn lemma_hex_digits_are_tag_chars(n: nat)
    ensures
        forall|i: int| 0 <= i < hexadecimal(n).len() ==> {
            let c = #[trigger] hexadecimal(n)[i];
            ('0' <= c && c <= '9') || ('a' <= c && c <= 'f')
        },
    decreases n,
{
    if n >= 16 {
        lemma_hex_digits_are_tag_chars(n / 16);
        let pre = hexadecimal(n / 16);
        let c = crate::fmt::hex_char(n % 16);
        assert(hexadecimal(n) == pre.push(c));
        assert forall|i: int| 0 <= i < hexadecimal(n).len() implies {
            let c = #[trigger] hexadecimal(n)[i];
            ('0' <= c && c <= '9') || ('a' <= c && c <= 'f')
        } by {
            if i < pre.len() {
                assert(hexadecimal(n)[i] == pre[i]);
            }
        }
    }
}

impl ETag {
    /// Creates a strong entity tag (no `W/` prefix) from the parts of a
    /// file's metadata: the digits of [`metadata_tag`] as a quoted string.
    /// Hexadecimal digits are always valid tag characters, so this never
    /// fails.
    pub fn from_metadata(created_millis: u32, modified_millis: u32, len: u64) -> (res: Result<ETag, ()>)
        ensures
            res matches Ok(tag) && tag@ == quoted(
                metadata_tag(created_millis as nat, modified_millis as nat, len as nat),
            ),
    {
        let mut tag = String::new();
        push_hexadecimal(&mut tag, created_millis as u64);
        push_hexadecimal(&mut tag, modified_millis as u64);
        push_hexadecimal(&mut tag, len);
        assert(tag@ =~= metadata_tag(created_millis as nat, modified_millis as nat, len as nat));
        if ETag::is_valid_tag(tag.as_str()) {
            let mut value = String::new();
            push_char(&mut value, '"');
            value.append(tag.as_str());
            push_char(&mut value, '"');
            assert(value@ =~= quoted(tag@));
            return Ok(ETag { value });
        }
        proof {
            let t = tag@;
            lemma_hex_digits_are_tag_chars(created_millis as nat);
            lemma_hex_digits_are_tag_chars(modified_millis as nat);
            lemma_hex_digits_are_tag_chars(len as nat);
            assert(is_ascii_chars(t)) by {
                assert forall|i: int| 0 <= i < t.len() implies '\0' <= #[trigger] t[i] <= '\u{7f}' by {
                    let a = hexadecimal(created_millis as nat);
                    let b = hexadecimal(modified_millis as nat);
                    if i < a.len() {
                        assert(t[i] == a[i]);
                    } else if i < a.len() + b.len() {
                        assert(t[i] == b[i - a.len()]);
                    } else {
                        assert(t[i] == hexadecimal(len as nat)[i - a.len() - b.len()]);
                    }
                }
            }
            is_ascii_chars_encode_utf8(t);
            assert forall|i: int| 0 <= i < encode_utf8(t).len() implies is_tag_byte(#[trigger] encode_utf8(t)[i]) by {
                let a = hexadecimal(created_millis as nat);
                let b = hexadecimal(modified_millis as nat);
                assert(encode_utf8(t)[i] == t[i] as u8);
                if i < a.len() {
                    assert(t[i] == a[i]);
                } else if i < a.len() + b.len() {
                    assert(t[i] == b[i - a.len()]);
                } else {
                    assert(t[i] == hexadecimal(len as nat)[i - a.len() - b.len()]);
                }
            }
        }
        Err(())
    }

    /// Ensures that every byte of the tag is a valid entity tag character
    /// (see [`is_tag_byte`]).
    pub fn is_valid_tag(slice: &str) -> (res: bool)
        ensures
            res == is_valid_tag_text(slice@),
    {
        let bytes = slice.as_bytes();
        let mut i: usize = 0;
        while i < bytes.len()
            invariant
                i <= bytes@.len(),
                bytes@ == encode_utf8(slice@),
                forall|k: int| 0 <= k < i ==> is_tag_byte(#[trigger] bytes@[k]),
            decreases bytes@.len() - i,
        {
            let c = bytes[i];
            if !(c == 0x21 || (0x23 <= c && c <= 0x7e) || c >= 0x80) {
                return false;
            }
            i = i + 1;
        }
        true
    }

    /// The `ETag` header that carries this tag.
    pub fn into_header(self) -> (res: HttpHeader)
        ensures
            res.0@ == "ETag"@,
            res.1@ == self@,
    {
        HttpHeader(String::from_str("ETag"), self.value)
    }
}

/// The entity tag text of three hashes: their hexadecimal digits, in order.
pub open spec fn entity_tag_text(created_hash: nat, modified_hash: nat, size_hash: nat) -> Seq<char> {
    hexadecimal(created_hash) + hexadecimal(modified_hash) + hexadecimal(size_hash)
}

/// Whether `c` is a lower-case hexadecimal digit.
pub open spec fn is_hex_digit(c: char) -> bool {
    ('0' <= c && c <= '9') || ('a' <= c && c <= 'f')
}

/// `16` to the power `k`.
pub open spec fn pow16(k: nat) -> nat
    decreases k,
{
    if k == 0 {
        1
    } else {
        16 * pow16((k - 1) as nat)
    }
}

proof fn lemma_hexadecimal_len(n: nat, k: nat)
    requires
        k >= 1,
        n < pow16(k),
    ensures
        1 <= hexadecimal(n).len() <= k,
    decreases k,
{
    if n >= 16 {
        assert(k >= 2) by {
            if k == 1 {
                assert(pow16(1) == 16 * pow16(0));
            }
        }
        assert(n / 16 < pow16((k - 1) as nat));
        lemma_hexadecimal_len(n / 16, (k - 1) as nat);
    }
}

/// The entity tag of three 64-bit hashes is 3 to 48 lower-case hexadecimal
/// digits, and equal hashes give equal tags.
pub proof fn lemma_entity_tag_shape(created_hash: u64, modified_hash: u64, size_hash: u64)
    ensures
        3 <= entity_tag_text(created_hash as nat, modified_hash as nat, size_hash as nat).len() <= 48,
        forall|i: int|
            0 <= i < entity_tag_text(created_hash as nat, modified_hash as nat, size_hash as nat).len()
                ==> is_hex_digit(
                #[trigger] entity_tag_text(
                    created_hash as nat,
                    modified_hash as nat,
                    size_hash as nat,
                )[i],
            ),
{
    assert(pow16(16) == 0x1_0000_0000_0000_0000) by {
        reveal_with_fuel(pow16, 17);
    }
    let a = hexadecimal(created_hash as nat);
    let b = hexadecimal(modified_hash as nat);
    let c = hexadecimal(size_hash as nat);
    lemma_hexadecimal_len(created_hash as nat, 16);
    lemma_hexadecimal_len(modified_hash as nat, 16);
    lemma_hexadecimal_len(size_hash as nat, 16);
    lemma_hex_digits_are_tag_chars(created_hash as nat);
    lemma_hex_digits_are_tag_chars(modified_hash as nat);
    lemma_hex_digits_are_tag_chars(size_hash as nat);
    let t = entity_tag_text(created_hash as nat, modified_hash as nat, size_hash as nat);
    assert forall|i: int| 0 <= i < t.len() implies is_hex_digit(#[trigger] t[i]) by {
        if i < a.len() {
            assert(t[i] == a[i]);
        } else if i < a.len() + b.len() {
            assert(t[i] == b[i - a.len()]);
        } else {
            assert(t[i] == c[i - a.len() - b.len()]);
        }
    }
}

/// The entity tag made of three hashes of a file's metadata (creation time,
/// modification time, length): their hexadecimal digits, in that order (see
/// [`lemma_entity_tag_shape`]).
pub fn make_entity_tag(created_hash: u64, modified_hash: u64, size_hash: u64) -> (res: String)
    ensures
        res@ == entity_tag_text(created_hash as nat, modified_hash as nat, size_hash as nat),
{
    let mut tag = String::new();
    push_hexadecimal(&mut tag, created_hash);
    push_hexadecimal(&mut tag, modified_hash);
    push_hexadecimal(&mut tag, size_hash);
    tag
}

/// HTTP Response `Cache-Control` directive.
pub enum CacheControlDirective {
    /// Cache-Control: must-revalidate
    MustRevalidate,
    /// Cache-Control: no-cache
    NoCache,
    /// Cache-Control: no-store
    NoStore,
    /// Cache-Control: no-transform
    NoTransform,
    /// Cache-Control: public
    Public,
    /// Cache-Control: private
    Private,
    /// Cache-Control: proxy-revalidate
    ProxyRavalidate,
    /// Cache-Control: max-age=<seconds>
    MaxAge(u64),
    /// Cache-Control: s-maxage=<seconds>
    SMaxAge(u64),
}

/// The header text of a directive.
pub open spec fn directive_text(d: CacheControlDirective) -> Seq<char> {
    match d {
        CacheControlDirective::MustRevalidate => "must-revalidate"@,
        CacheControlDirective::NoCache => "no-cache"@,
        CacheControlDirective::NoStore => "no-store"@,
        CacheControlDirective::NoTransform => "no-transform"@,
        CacheControlDirective::Public => "public"@,
        CacheControlDirective::Private => "private"@,
        CacheControlDirective::ProxyRavalidate => "proxy-revalidate"@,
        CacheControlDirective::MaxAge(age) => "max-age="@ + decimal(age as nat),
        CacheControlDirective::SMaxAge(age) => "s-maxage="@ + decimal(age as nat),
    }
}

impl CacheControlDirective {
    /// The header text of this directive (see [`directive_text`]).
    pub fn to_string(&self) -> (res: String)
        ensures
            res@ == directive_text(*self),
    {
        match self {
            CacheControlDirective::MustRevalidate => String::from_str("must-revalidate"),
            CacheControlDirective::NoCache => String::from_str("no-cache"),
            CacheControlDirective::NoStore => String::from_str("no-store"),
            CacheControlDirective::NoTransform => String::from_str("no-transform"),
            CacheControlDirective::Public => String::from_str("public"),
            CacheControlDirective::Private => String::from_str("private"),
            CacheControlDirective::ProxyRavalidate => String::from_str("proxy-revalidate"),
            CacheControlDirective::MaxAge(age) => {
                let mut s = String::from_str("max-age=");
                push_decimal(&mut s, *age);
                s
            },
            CacheControlDirective::SMaxAge(age) => {
                let mut s = String::from_str("s-maxage=");
                push_decimal(&mut s, *age);
                s
            },
        }
    }
}

/// The MIME type that `mime_guess` guesses for a path, as text.
pub uninterp spec fn guessed_mime_type(path: Seq<char>) -> Seq<char>;

/// `mime_guess::from_path(path).first_or_octet_stream()`, as text.
/// Claimed: the result is the one named by [`guessed_mime_type`], and a path
/// without any `.` (so without an extension) gets
/// `application/octet-stream`. Which type an extension maps to is left to
/// the name.
#[verifier::external_body]
pub(crate) fn guess_mime_type(path: &str) -> (res: String)
    ensures
        res@ == guessed_mime_type(path@),
        !path@.contains('.') ==> res@ == "application/octet-stream"@,
{
    mime_guess::from_path(path).first_or_octet_stream().to_string()
}

/// The MIME type of the file at `path`, guessed from its extension, and
/// `application/octet-stream` when there is nothing to go by.
pub fn mime(path: &str) -> (res: String)
    ensures
        res@ == guessed_mime_type(path@),
        !path@.contains('.') ==> res@ == "application/octet-stream"@,
{
    guess_mime_type(path)
}

/// Whether chrono represents the Unix time `secs` (seconds): from the start
/// of January 1 of the year -262143 to the end of December 31 of the year
/// 262142.
pub open spec fn in_chrono_range(secs: int) -> bool {
    -8_334_601_315_200 <= secs && secs <= 8_210_266_876_799
}

/// Whether a modification time can be written as an HTTP date: its seconds
/// in chrono's range (see [`in_chrono_range`]) and fewer than 10^9
/// nanoseconds.
pub fn has_http_date(secs: i64, nanos: u32) -> (res: bool)
    ensures
        res == (in_chrono_range(secs as int) && nanos < 1_000_000_000),
{
    -8_334_601_315_200 <= secs && secs <= 8_210_266_876_799 && nanos < 1_000_000_000
}

/// The HTTP date text that chrono formats for a UTC time.
pub uninterp spec fn http_date_text(secs: int, nanos: nat) -> Seq<char>;

/// `chrono::DateTime::from_timestamp(secs, nanos)` formatted with
/// `%a, %e %b %Y %H:%M:%S`.
/// Claimed: `None` only when chrono refuses the time, which it does not for
/// a time in [`in_chrono_range`] with fewer than 10^9 nanoseconds; the text
/// is the one named by [`http_date_text`]. The calendar arithmetic and the
/// names of days and months are left to the name.
#[verifier::external_body]
pub(crate) fn format_http_date(secs: i64, nanos: u32) -> (res: Option<String>)
    ensures
        res matches Some(t) ==> t@ == http_date_text(secs as int, nanos as nat),
        in_chrono_range(secs as int) && nanos < 1_000_000_000 ==> res is Some,
{
    match DateTime::from_timestamp(secs, nanos) {
        Some(d) => Some(d.format("%a, %e %b %Y %H:%M:%S").to_string()),
        None => None,
    }
}

/// The two's complement reading of a signed number as unsigned (how `{:x}`
/// prints a negative `i64`).
pub open spec fn as_unsigned64(n: int) -> nat {
    if n >= 0 {
        n as nat
    } else {
        (n + 0x1_0000_0000_0000_0000) as nat
    }
}

/// The weak entity tag of a file: its size, the seconds and the
/// nanoseconds of its last modification, in hexadecimal.
pub open spec fn weak_file_tag(size: nat, secs: int, nanos: nat) -> Seq<char> {
    "W/\""@ + hexadecimal(size) + seq!['-'] + hexadecimal(as_unsigned64(secs)) + seq!['.']
        + hexadecimal(nanos) + seq!['"']
}

/// The last-modified time of a file could not be read.
#[derive(Debug, PartialEq, Eq, Structural)]
pub struct MissingModifiedTime;

impl MissingModifiedTime {
    /// The message that describes the error.
    pub fn message(&self) -> (res: String)
        ensures
            res@ == "Failed to read last modified time for file"@,
    {
        String::from_str("Failed to read last modified time for file")
    }
}

/// The headers of a file response.
pub struct ResponseHeaders {
    pub cache_control: String,
    pub content_type: String,
    pub etag: String,
    pub last_modified: String,
}

impl ResponseHeaders {
    /// The headers for the file at `path` with `size` bytes, last modified
    /// at `last_modified` (Unix seconds and nanoseconds, if known), sent
    /// with `cache_control_directive`: the directive, the guessed MIME type,
    /// the weak entity tag and the HTTP date followed by ` GMT`.
    pub fn new(
        path: &str,
        size: u64,
        last_modified: Option<(i64, u32)>,
        cache_control_directive: CacheControlDirective,
    ) -> (res: Result<ResponseHeaders, MissingModifiedTime>)
        requires
            last_modified matches Some((secs, nanos)) ==> in_chrono_range(secs as int) && nanos
                < 1_000_000_000,
        ensures
            last_modified is None <==> res is Err,
            last_modified matches Some((secs, nanos)) ==> (res matches Ok(h) && h.cache_control@
                == directive_text(cache_control_directive) && h.content_type@
                == guessed_mime_type(path@) && h.etag@ == weak_file_tag(
                size as nat,
                secs as int,
                nanos as nat,
            ) && h.last_modified@ == http_date_text(secs as int, nanos as nat) + " GMT"@),
    {
        let (secs, nanos) = match last_modified {
            Some(t) => t,
            None => return Err(MissingModifiedTime),
        };
        let mut etag = String::from_str("W/\"");
        push_hexadecimal(&mut etag, size);
        push_char(&mut etag, '-');
        let unsigned_secs: u64 = if secs >= 0 {
            secs as u64
        } else {
            (secs as i128 + 0x1_0000_0000_0000_0000i128) as u64
        };
        push_hexadecimal(&mut etag, unsigned_secs);
        push_char(&mut etag, '.');
        push_hexadecimal(&mut etag, nanos as u64);
        push_char(&mut etag, '"');
        proof {
            reveal_strlit("W/\"");
            assert(etag@ =~= weak_file_tag(size as nat, secs as int, nanos as nat));
        }
        let mut date = match format_http_date(secs, nanos) {
            Some(d) => d,
            None => {
                assert(false);
                String::new()
            },
        };
        date.append(" GMT");
        Ok(
            ResponseHeaders {
                cache_control: cache_control_directive.to_string(),
                content_type: guess_mime_type(path),
                etag,
                last_modified: date,
            },
        )
    }
}

} // verus!
