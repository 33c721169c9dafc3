use http_server::headers::{
    has_http_date, make_entity_tag, mime, CacheControlDirective, ETag, MissingModifiedTime, ResponseHeaders,
};

#[test]
fn makes_strong_tags_from_metadata() {
    let header = ETag::from_metadata(10, 255, 4096).unwrap().into_header();
    assert_eq!(header.0, "ETag");
    assert_eq!(header.1, "\"aff1000\"");
}

#[test]
fn validates_tag_characters() {
    assert!(ETag::is_valid_tag("abc123"));
    assert!(ETag::is_valid_tag("W/#~!"));
    assert!(ETag::is_valid_tag("caf\u{e9}"));
    assert!(ETag::is_valid_tag(""));
    assert!(!ETag::is_valid_tag("a\"b"));
    assert!(!ETag::is_valid_tag("a b"));
    assert!(!ETag::is_valid_tag("tab\t"));
    assert!(!ETag::is_valid_tag("del\u{7f}"));
}

#[test]
fn makes_entity_tags_from_hashes() {
    assert_eq!(make_entity_tag(1, 2, 3), "123");
    assert_eq!(make_entity_tag(0xdead, 0, 0xbeef), "dead0beef");
}

#[test]
fn writes_cache_control_directives() {
    assert_eq!(CacheControlDirective::MustRevalidate.to_string(), "must-revalidate");
    assert_eq!(CacheControlDirective::NoCache.to_string(), "no-cache");
    assert_eq!(CacheControlDirective::NoStore.to_string(), "no-store");
    assert_eq!(CacheControlDirective::NoTransform.to_string(), "no-transform");
    assert_eq!(CacheControlDirective::Public.to_string(), "public");
    assert_eq!(CacheControlDirective::Private.to_string(), "private");
    assert_eq!(CacheControlDirective::ProxyRavalidate.to_string(), "proxy-revalidate");
    assert_eq!(CacheControlDirective::MaxAge(3600).to_string(), "max-age=3600");
    assert_eq!(CacheControlDirective::SMaxAge(0).to_string(), "s-maxage=0");
}

#[test]
fn guesses_mime_types_from_extensions() {
    assert_eq!(mime("index.html"), "text/html");
    assert_eq!(mime("docs/screenshot.png"), "image/png");
    assert_eq!(mime("Makefile"), "application/octet-stream");
    assert_eq!(mime("archive.unknownext"), "application/octet-stream");
}

#[test]
fn builds_file_response_headers() {
    let headers = ResponseHeaders::new(
        "public/index.html",
        1024,
        Some((0, 0)),
        CacheControlDirective::MaxAge(3600),
    )
    .unwrap();
    assert_eq!(headers.cache_control, "max-age=3600");
    assert_eq!(headers.content_type, "text/html");
    assert_eq!(headers.etag, "W/\"400-0.0\"");
    assert_eq!(headers.last_modified, "Thu,  1 Jan 1970 00:00:00 GMT");
}

#[test]
fn formats_last_modified_dates() {
    let headers = ResponseHeaders::new(
        "notes.txt",
        17,
        Some((1_700_000_000, 250)),
        CacheControlDirective::NoCache,
    )
    .unwrap();
    assert_eq!(headers.etag, "W/\"11-6553f100.fa\"");
    assert_eq!(headers.last_modified, "Tue, 14 Nov 2023 22:13:20 GMT");
    assert_eq!(headers.content_type, "text/plain");
}

#[test]
fn tags_times_before_the_epoch_in_twos_complement() {
    let headers =
        ResponseHeaders::new("a.bin", 0, Some((-1, 0)), CacheControlDirective::Public).unwrap();
    assert_eq!(headers.etag, "W/\"0-ffffffffffffffff.0\"");
    assert_eq!(headers.last_modified, "Wed, 31 Dec 1969 23:59:59 GMT");
}

#[test]
fn needs_a_modification_time() {
    let res = ResponseHeaders::new("a.txt", 1, None, CacheControlDirective::NoStore);
    assert!(matches!(res, Err(MissingModifiedTime)));
    assert_eq!(MissingModifiedTime.message(), "Failed to read last modified time for file");
}

#[test]
fn entity_tags_are_three_to_forty_eight_hex_digits() {
    for (a, b, c) in [(0u64, 0u64, 0u64), (u64::MAX, u64::MAX, u64::MAX), (1, 0xabc, 77)] {
        let t = make_entity_tag(a, b, c);
        assert!(3 <= t.len() && t.len() <= 48);
        assert!(t.chars().all(|ch| ch.is_ascii_digit() || ('a'..='f').contains(&ch)));
        assert_eq!(t, make_entity_tag(a, b, c));
    }
    assert_eq!(make_entity_tag(0, 0, 0).len(), 3);
    assert_eq!(make_entity_tag(u64::MAX, u64::MAX, u64::MAX).len(), 48);
}

#[test]
fn dates_cover_chronos_whole_range() {
    assert!(has_http_date(8_210_266_876_799, 999_999_999));
    assert!(!has_http_date(8_210_266_876_800, 0));
    assert!(has_http_date(-8_334_601_315_200, 0));
    assert!(!has_http_date(-8_334_601_315_201, 0));
    assert!(!has_http_date(0, 1_000_000_000));
    let late = ResponseHeaders::new("a.txt", 1, Some((8_210_266_876_799, 0)), CacheControlDirective::NoCache)
        .unwrap();
    assert!(late.last_modified.contains("262142 23:59:59 GMT"), "{}", late.last_modified);
    let early = ResponseHeaders::new("a.txt", 1, Some((-8_334_601_315_200, 0)), CacheControlDirective::NoCache)
        .unwrap();
    assert!(early.last_modified.ends_with(" GMT"));
}
