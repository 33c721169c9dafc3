//! Percent-encoding of path components and percent-decoding of request
//! paths, through the `percent_encoding` crate.
use percent_encoding::{percent_decode_str, percent_encode_byte};
use vstd::prelude::*;
use vstd::utf8::*;

use crate::path::{comps_view, component_text, components, path_components, push_path, pushed_all, split_chars, split_on, texts, Component, PathComponent};
use crate::path::{is_plain_name, lemma_components_of_joined, path_pushed};
use crate::text::{chars_of, push_char, string_of};

verus! {

/// Bytes that the encode set leaves as they are: ASCII letters and digits,
/// and `-`, `_`, `.`, `~`.
pub open spec fn is_unreserved_byte(b: u8) -> bool {
    ||| (48 <= b && b <= 57)
    ||| (65 <= b && b <= 90)
    ||| (97 <= b && b <= 122)
    ||| b == 45 || b == 95 || b == 46 || b == 126
}

/// The upper-case hexadecimal digit of `n` (`n < 16`).
pub open spec fn hex_digit_upper(n: int) -> char {
    if n < 10 {
        (48 + n) as char
    } else {
        (55 + n) as char
    }
}

/// The characters that encode one byte: the byte itself when unreserved,
/// else `%` and two upper-case hexadecimal digits.
pub open spec fn encode_byte(b: u8) -> Seq<char> {
    if is_unreserved_byte(b) {
        seq![b as char]
    } else {
        seq!['%', hex_digit_upper(b as int / 16), hex_digit_upper(b as int % 16)]
    }
}

/// Percent-encoding of a byte sequence with this library's encode set.
pub open spec fn percent_encoded(bytes: Seq<u8>) -> Seq<char>
    decreases bytes.len(),
{
    if bytes.len() == 0 {
        seq![]
    } else {
        encode_byte(bytes[0]) + percent_encoded(bytes.drop_first())
    }
}

/// The value of a hexadecimal digit byte (either case).
pub open spec fn hex_value(b: u8) -> Option<u8> {
    if 48 <= b && b <= 57 {
        Some((b - 48) as u8)
    } else if 65 <= b && b <= 70 {
        Some((b - 55) as u8)
    } else if 97 <= b && b <= 102 {
        Some((b - 87) as u8)
    } else {
        None
    }
}

/// Percent-decoding: every `%` followed by two hexadecimal digits becomes the
/// byte they denote; every other byte stays.
pub open spec fn percent_decoded(bytes: Seq<u8>) -> Seq<u8>
    decreases bytes.len(),
{
    if bytes.len() == 0 {
        seq![]
    } else if bytes[0] == 37 && bytes.len() >= 3 && hex_value(bytes[1]) is Some
        && hex_value(bytes[2]) is Some {
        seq![(hex_value(bytes[1])->0 * 16 + hex_value(bytes[2])->0) as u8]
            + percent_decoded(bytes.skip(3))
    } else {
        seq![bytes[0]] + percent_decoded(bytes.drop_first())
    }
}

/// What `String::from_utf8_lossy` makes of a byte sequence.
pub uninterp spec fn utf8_lossy_text(bytes: Seq<u8>) -> Seq<char>;

/// `percent_encoding::percent_encode_byte`.
/// Claimed: the result is `%` followed by the two upper-case hexadecimal
/// digits of `b`.
#[verifier::external_body]
fn percent_encode_one(b: u8) -> (res: &'static str)
    ensures
        res@ == seq!['%', hex_digit_upper(b as int / 16), hex_digit_upper(b as int % 16)],
{
    percent_encode_byte(b)
}

/// Encoding distributes over concatenation.
pub proof fn lemma_percent_encoded_concat(a: Seq<u8>, b: Seq<u8>)
    ensures
        percent_encoded(a + b) == percent_encoded(a) + percent_encoded(b),
    decreases a.len(),
{
    if a.len() == 0 {
        assert(a + b =~= b);
    } else {
        assert((a + b).drop_first() =~= a.drop_first() + b);
        lemma_percent_encoded_concat(a.drop_first(), b);
    }
}

/// Percent-encodes the UTF-8 encoding of `s`: unreserved bytes (ASCII
/// letters and digits, `-`, `_`, `.`, `~`) stay, every other byte becomes
/// `%XX`.
pub fn percent_encode_text(s: &str) -> (res: String)
    ensures
        res@ == percent_encoded(encode_utf8(s@)),
{
    let bytes = s.as_bytes();
    let mut res = String::new();
    let mut i: usize = 0;
    while i < bytes.len()
        invariant
            i <= bytes@.len(),
            bytes@ == encode_utf8(s@),
            res@ == percent_encoded(bytes@.take(i as int)),
        decreases bytes@.len() - i,
    {
        let b = bytes[i];
        proof {
            let one = seq![b];
            lemma_percent_encoded_concat(bytes@.take(i as int), one);
            assert(bytes@.take(i + 1) =~= bytes@.take(i as int) + one);
            assert(percent_encoded(one.drop_first()) =~= Seq::<char>::empty());
            assert(percent_encoded(one) =~= encode_byte(b));
        }
        if (48 <= b && b <= 57) || (65 <= b && b <= 90) || (97 <= b && b <= 122) || b == 45
            || b == 95 || b == 46 || b == 126 {
            crate::text::push_char(&mut res, b as char);
            proof {
                assert(res@ =~= percent_encoded(bytes@.take(i as int)) + encode_byte(b));
            }
        } else {
            res.append(percent_encode_one(b));
        }
        i = i + 1;
    }
    assert(bytes@.take(bytes@.len() as int) =~= bytes@);
    res
}

/// `percent_encoding::percent_decode_str(s).decode_utf8()`.
/// Claimed: the percent-decoded bytes of `s` are returned as a string when
/// they are valid UTF-8, and `None` is returned otherwise.
#[verifier::external_body]
pub(crate) fn percent_decode_text(s: &str) -> (res: Option<String>)
    ensures
        res is Some <==> valid_utf8(percent_decoded(encode_utf8(s@))),
        res matches Some(t) ==> t@ == decode_utf8(percent_decoded(encode_utf8(s@))),
{
    match percent_decode_str(s).decode_utf8() {
        Ok(t) => Some(t.into_owned()),
        Err(_) => None,
    }
}

/// `percent_encoding::percent_decode_str(s).decode_utf8_lossy()`.
/// Claimed: the result is the lossy UTF-8 reading of the percent-decoded
/// bytes of `s`, which is their exact reading when they are valid UTF-8.
/// What the lossy reading makes of invalid bytes is left unsaid.
#[verifier::external_body]
pub(crate) fn percent_decode_lossy(s: &str) -> (res: String)
    ensures
        res@ == utf8_lossy_text(percent_decoded(encode_utf8(s@))),
        valid_utf8(percent_decoded(encode_utf8(s@))) ==> res@ == decode_utf8(
            percent_decoded(encode_utf8(s@)),
        ),
{
    percent_decode_str(s).decode_utf8_lossy().into_owned()
}

/// The bytes of a sequence of ASCII characters.
pub open spec fn ascii_bytes(cs: Seq<char>) -> Seq<u8> {
    Seq::new(cs.len(), |i: int| cs[i] as u8)
}

proof fn lemma_hex_digit_roundtrip(n: int)
    requires
        0 <= n < 16,
    ensures
        hex_value(hex_digit_upper(n) as u8) == Some(n as u8),
        hex_digit_upper(n) as u32 <= 127,
{
}

proof fn lemma_encoded_is_ascii(bytes: Seq<u8>)
    ensures
        is_ascii_chars(percent_encoded(bytes)),
    decreases bytes.len(),
{
    if bytes.len() > 0 {
        lemma_encoded_is_ascii(bytes.drop_first());
        let b = bytes[0];
        lemma_hex_digit_roundtrip(b as int / 16);
        lemma_hex_digit_roundtrip(b as int % 16);
        let e = encode_byte(b);
        let r = percent_encoded(bytes.drop_first());
        assert forall|i| 0 <= i < (e + r).len() implies '\0' <= #[trigger] (e + r)[i] <= '\u{7f}' by {
            if i >= e.len() {
                assert((e + r)[i] == r[i - e.len()]);
            }
        }
    }
}

proof fn lemma_decode_encoded(bytes: Seq<u8>)
    ensures
        percent_decoded(ascii_bytes(percent_encoded(bytes))) == bytes,
    decreases bytes.len(),
{
    if bytes.len() == 0 {
        assert(ascii_bytes(percent_encoded(bytes)) =~= Seq::<u8>::empty());
    } else {
        let b = bytes[0];
        let rest = bytes.drop_first();
        lemma_decode_encoded(rest);
        let tail = ascii_bytes(percent_encoded(rest));
        let all = ascii_bytes(percent_encoded(bytes));
        let e = encode_byte(b);
        assert(all =~= ascii_bytes(e) + tail);
        lemma_hex_digit_roundtrip(b as int / 16);
        lemma_hex_digit_roundtrip(b as int % 16);
        if is_unreserved_byte(b) {
            assert(ascii_bytes(e) =~= seq![b]);
            assert(all.drop_first() =~= tail);
            assert(percent_decoded(all) =~= seq![b] + percent_decoded(tail));
        } else {
            assert(all.skip(3) =~= tail);
            assert(percent_decoded(all) =~= seq![b] + percent_decoded(tail));
        }
        assert(bytes =~= seq![b] + rest);
    }
}

/// Decoding what encoding produced gives the text back: for every
/// string, percent-decoding its percent-encoding yields valid UTF-8 that
/// reads as the same string.
pub proof fn lemma_percent_roundtrip(s: Seq<char>)
    ensures
        valid_utf8(percent_decoded(encode_utf8(percent_encoded(encode_utf8(s))))),
        decode_utf8(percent_decoded(encode_utf8(percent_encoded(encode_utf8(s))))) == s,
{
    let bytes = encode_utf8(s);
    let enc = percent_encoded(bytes);
    lemma_encoded_is_ascii(bytes);
    is_ascii_chars_encode_utf8(enc);
    assert(encode_utf8(enc) =~= ascii_bytes(enc));
    lemma_decode_encoded(bytes);
    encode_utf8_valid_utf8(s);
    encode_utf8_decode_utf8(s);
}

/// The URI text of a sequence of path components: each component other than
/// the root becomes `/` followed by its percent-encoded text.
pub open spec fn encoded_uri(cs: Seq<Component>) -> Seq<char>
    decreases cs.len(),
{
    if cs.len() == 0 {
        seq![]
    } else {
        encoded_uri(cs.drop_last()) + match cs.last() {
            Component::RootDir => Seq::<char>::empty(),
            c => seq!['/'] + percent_encoded(encode_utf8(component_text(c))),
        }
    }
}

/// The pieces of a request path decoded: each is percent-decoded and read
/// lossily as UTF-8.
pub open spec fn decoded_pieces(ps: Seq<Seq<char>>) -> Seq<Seq<char>> {
    Seq::new(ps.len(), |i: int| lossy_utf8(percent_decoded(encode_utf8(ps[i]))))
}

/// The lossy UTF-8 reading of `bytes`: their exact reading when they are
/// valid UTF-8, else what `String::from_utf8_lossy` makes of them.
pub open spec fn lossy_utf8(bytes: Seq<u8>) -> Seq<char> {
    if valid_utf8(bytes) {
        decode_utf8(bytes)
    } else {
        utf8_lossy_text(bytes)
    }
}

/// The text of an executable component.
pub fn component_string(c: &PathComponent) -> (res: String)
    ensures
        res@ == component_text(c.deep_view()),
{
    match c {
        PathComponent::RootDir => {
            let mut s = String::new();
            push_char(&mut s, '/');
            s
        },
        PathComponent::CurDir => {
            let mut s = String::new();
            push_char(&mut s, '.');
            s
        },
        PathComponent::ParentDir => {
            let mut s = String::new();
            push_char(&mut s, '.');
            push_char(&mut s, '.');
            s
        },
        PathComponent::Normal(v) => string_of(v),
    }
}

/// The URI text of the components `cs` from index `start` on (see
/// [`encoded_uri`]).
pub fn encode_components(cs: &Vec<PathComponent>, start: usize) -> (res: String)
    requires
        start <= cs.len(),
    ensures
        res@ == encoded_uri(comps_view(cs@).skip(start as int)),
{
    let ghost rest = comps_view(cs@).skip(start as int);
    let mut res = String::new();
    let mut i: usize = start;
    assert(rest.take(0) =~= Seq::<Component>::empty());
    while i < cs.len()
        invariant
            start <= i <= cs.len(),
            rest == comps_view(cs@).skip(start as int),
            res@ == encoded_uri(rest.take(i - start)),
        decreases cs.len() - i,
    {
        proof {
            assert(rest.take(i - start + 1).drop_last() =~= rest.take(i - start));
            assert(rest.take(i - start + 1).last() == cs@[i as int].deep_view());
        }
        match &cs[i] {
            PathComponent::RootDir => {
                assert(res@ =~= encoded_uri(rest.take(i - start + 1)));
            },
            c => {
                push_char(&mut res, '/');
                let text = component_string(c);
                let enc = percent_encode_text(text.as_str());
                res.append(enc.as_str());
                assert(res@ =~= encoded_uri(rest.take(i - start + 1)));
            },
        }
        i = i + 1;
    }
    assert(rest.take(cs.len() - start) =~= rest);
    res
}

/// Encodes a file path as a URI path: `/` before every component, each
/// component percent-encoded; a leading root adds nothing of its own.
pub fn encode_uri(file_path: &str) -> (res: String)
    ensures
        res@ == encoded_uri(components(file_path@)),
{
    let chars = chars_of(file_path);
    let cs = path_components(&chars);
    assert(comps_view(cs@).skip(0) =~= comps_view(cs@));
    encode_components(&cs, 0)
}

/// Decodes a URI path into a file path: every piece between `/` is decoded
/// (see [`decoded_pieces`]) and the pieces are pushed, in order, onto an
/// empty path.
pub fn decode_uri(file_path: &str) -> (res: String)
    ensures
        res@ == pushed_all(seq![], decoded_pieces(split_on(file_path@, '/'))),
{
    let chars = chars_of(file_path);
    let parts = split_chars(&chars, '/');
    let mut buf: Vec<char> = Vec::new();
    let mut i: usize = 0;
    let ghost dp = decoded_pieces(split_on(file_path@, '/'));
    assert(dp.take(0) =~= Seq::<Seq<char>>::empty());
    while i < parts.len()
        invariant
            i <= parts.len(),
            texts(parts@) == split_on(file_path@, '/'),
            dp == decoded_pieces(split_on(file_path@, '/')),
            buf@ == pushed_all(seq![], dp.take(i as int)),
        decreases parts.len() - i,
    {
        let piece = string_of(&parts[i]);
        let decoded = percent_decode_lossy(piece.as_str());
        let dchars = chars_of(decoded.as_str());
        assert(dp.take(i + 1).drop_last() =~= dp.take(i as int));
        assert(dp[i as int] == dchars@);
        push_path(&mut buf, &dchars);
        i = i + 1;
    }
    assert(dp.take(parts.len() as int) =~= dp);
    string_of(&buf)
}

proof fn lemma_encoded_has_no_slash(bytes: Seq<u8>)
    ensures
        !percent_encoded(bytes).contains('/'),
    decreases bytes.len(),
{
    if bytes.len() > 0 {
        lemma_encoded_has_no_slash(bytes.drop_first());
        let e = encode_byte(bytes[0]);
        let r = percent_encoded(bytes.drop_first());
        assert forall|k: int| 0 <= k < (e + r).len() implies (e + r)[k] != '/' by {
            if k >= e.len() {
                assert((e + r)[k] == r[k - e.len()]);
            } else if k > 0 {
                assert(0 <= bytes[0] as int / 16 < 16);
                assert(0 <= bytes[0] as int % 16 < 16);
            }
        }
    }
}

/// The percent-encoded text of each name.
pub open spec fn encoded_names(ns: Seq<Seq<char>>) -> Seq<Seq<char>> {
    Seq::new(ns.len(), |i: int| percent_encoded(encode_utf8(ns[i])))
}

proof fn lemma_split_encoded(ns: Seq<Seq<char>>)
    ensures
        split_on(encoded_uri(ns.map_values(|n: Seq<char>| Component::Normal(n))), '/') == seq![
            Seq::<char>::empty(),
        ] + encoded_names(ns),
    decreases ns.len(),
{
    let cs = ns.map_values(|n: Seq<char>| Component::Normal(n));
    if ns.len() == 0 {
        assert(cs =~= Seq::<Component>::empty());
        assert(encoded_uri(cs) =~= Seq::<char>::empty());
        assert(seq![Seq::<char>::empty()] + encoded_names(ns) =~= seq![Seq::<char>::empty()]);
    } else {
        let prev = ns.drop_last();
        lemma_split_encoded(prev);
        assert(cs.drop_last() =~= prev.map_values(|n: Seq<char>| Component::Normal(n)));
        let t = percent_encoded(encode_utf8(ns.last()));
        lemma_encoded_has_no_slash(encode_utf8(ns.last()));
        assert(cs.last() == Component::Normal(ns.last()));
        let head = encoded_uri(cs.drop_last());
        assert(encoded_uri(cs) =~= head + seq!['/'] + t);
        crate::path::lemma_split_after_sep(head, t, '/');
        assert(seq![Seq::<char>::empty()] + encoded_names(ns) =~= (seq![Seq::<char>::empty()]
            + encoded_names(prev)).push(t));
    }
}

proof fn lemma_pushed_all_after_empty(ns: Seq<Seq<char>>)
    ensures
        pushed_all(seq![], seq![Seq::<char>::empty()] + ns) == pushed_all(seq![], ns),
    decreases ns.len(),
{
    let e = Seq::<char>::empty();
    let all = seq![e] + ns;
    if ns.len() == 0 {
        assert(all.drop_last() =~= Seq::<Seq<char>>::empty());
        assert(all.last() == e);
        assert(pushed_all(seq![], all.drop_last()) == Seq::<char>::empty());
        assert(path_pushed(Seq::<char>::empty(), e) =~= e);
    } else {
        lemma_pushed_all_after_empty(ns.drop_last());
        assert(all.drop_last() =~= seq![e] + ns.drop_last());
        assert(all.last() == ns.last());
        assert(pushed_all(seq![], all) == path_pushed(pushed_all(seq![], all.drop_last()), all.last()));
    }
}

/// Decoding the URI of plain names, each a normal component, gives the
/// names joined as a path.
pub(crate) proof fn lemma_decode_encoded_names(ns: Seq<Seq<char>>)
    requires
        forall|i: int| 0 <= i < ns.len() ==> is_plain_name(#[trigger] ns[i]),
    ensures
        pushed_all(
            seq![],
            decoded_pieces(
                split_on(encoded_uri(ns.map_values(|n: Seq<char>| Component::Normal(n))), '/'),
            ),
        ) == pushed_all(seq![], ns),
{
    let e = Seq::<char>::empty();
    lemma_split_encoded(ns);
    let pieces = seq![e] + encoded_names(ns);
    assert forall|i: int| 0 <= i < ns.len() implies lossy_utf8(
        percent_decoded(encode_utf8(#[trigger] encoded_names(ns)[i])),
    ) == ns[i] by {
        lemma_percent_roundtrip(ns[i]);
    }
    assert(encode_utf8(e) =~= Seq::<u8>::empty());
    assert(percent_decoded(Seq::<u8>::empty()) =~= Seq::<u8>::empty());
    assert(decode_utf8(Seq::<u8>::empty()) =~= e);
    assert(decoded_pieces(pieces) =~= seq![e] + ns) by {
        assert forall|i: int| 0 <= i < pieces.len() implies #[trigger] decoded_pieces(pieces)[i]
            == (seq![e] + ns)[i] by {
            if i > 0 {
                assert(pieces[i] == encoded_names(ns)[i - 1]);
            }
        }
    }
    lemma_pushed_all_after_empty(ns);
}

/// Decoding the URI of a relative path made of plain names gives that path
/// back: what `encode_uri` writes, `decode_uri` reads.
pub proof fn lemma_uri_roundtrip(ns: Seq<Seq<char>>)
    requires
        forall|i: int| 0 <= i < ns.len() ==> is_plain_name(#[trigger] ns[i]),
    ensures
        pushed_all(
            seq![],
            decoded_pieces(split_on(encoded_uri(components(pushed_all(seq![], ns))), '/')),
        ) == pushed_all(seq![], ns),
{
    lemma_components_of_joined(ns);
    lemma_decode_encoded_names(ns);
}

} // verus!
