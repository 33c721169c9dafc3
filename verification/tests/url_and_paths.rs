use http_server::file_system::ScopedFileSystem;
use http_server::url_encode::{decode_uri, encode_uri, percent_encode_text};

#[test]
fn encodes_uri() {
    let file_path = "/these are important files/do_not_delete/file name.txt";
    let file_path = encode_uri(file_path);

    assert_eq!(
        file_path,
        "/these%20are%20important%20files/do_not_delete/file%20name.txt"
    );
}

#[test]
fn decodes_uri() {
    let file_path = "these%20are%20important%20files/do_not_delete/file%20name.txt";
    let file_path = decode_uri(file_path);

    assert_eq!(
        file_path,
        String::from("these are important files/do_not_delete/file name.txt")
    );
}

#[test]
fn normalizes_parent_directories_away() {
    assert_eq!(
        ScopedFileSystem::normalize_path("docs/collegue/cs50/lectures/../code/voting_excecise"),
        "docs/collegue/cs50/code/voting_excecise"
    );
    assert_eq!(ScopedFileSystem::normalize_path("../../etc/passwd"), "etc/passwd");
    assert_eq!(ScopedFileSystem::normalize_path("/a/./b//c/"), "a/b/c");
}

#[test]
fn builds_paths_under_the_root() {
    let fs = ScopedFileSystem::new(String::from("./public")).unwrap();
    assert_eq!(fs.build_relative_path("/../../secret.txt"), "./public/secret.txt");
    assert_eq!(fs.build_relative_path(""), "./public");
}

#[test]
fn percent_encodes_every_reserved_byte() {
    assert_eq!(percent_encode_text("AZaz09-_.~"), "AZaz09-_.~");
    assert_eq!(percent_encode_text("a b/c?d#e%"), "a%20b%2Fc%3Fd%23e%25");
    assert_eq!(percent_encode_text("caf\u{e9}"), "caf%C3%A9");
    assert_eq!(percent_encode_text(""), "");
}

#[test]
fn decoding_an_encoded_relative_path_gives_it_back() {
    for path in ["docs/my file.txt", "a/b/c", "caf\u{e9}/100%/x+y", "single"] {
        assert_eq!(decode_uri(&encode_uri(path)), path);
    }
}

#[test]
fn decoding_keeps_undecodable_escapes() {
    assert_eq!(decode_uri("a%2/b%zz"), "a%2/b%zz");
    assert_eq!(decode_uri("%FF"), "\u{FFFD}");
    assert_eq!(decode_uri("/abs/%41"), "abs/A");
}

#[test]
fn normalizing_twice_changes_nothing() {
    for p in ["../a/./b/../../c//d/", "/x/y/..", "", "...", "a/.../b"] {
        let once = ScopedFileSystem::normalize_path(p);
        assert_eq!(ScopedFileSystem::normalize_path(&once), once);
    }
    assert_eq!(ScopedFileSystem::normalize_path("a/.../b"), "a/.../b");
}
