use http_server::file_system::{Directory, ScopedFileSystem};
use http_server::http_error::HttpErrorResponse;
use http_server::release::release_binary_path;

#[test]
fn error_responses_carry_status_and_message() {
    let plain = HttpErrorResponse::new(404);
    assert_eq!(plain.status_code, 404);
    assert!(plain.message.is_none());
    let with = HttpErrorResponse::new(401).with_message("Invalid credentials");
    assert_eq!(with.status_code, 401);
    assert_eq!(with.message.as_deref(), Some("Invalid credentials"));
}

#[test]
fn locates_the_release_binary() {
    assert_eq!(
        release_binary_path("x86_64-unknown-linux-gnu"),
        "../target/x86_64-unknown-linux-gnu/release/http-server"
    );
}

#[test]
fn directories_keep_their_path() {
    let d = Directory::new(String::from("/srv/files"));
    assert_eq!(d.path(), "/srv/files");
}

#[test]
fn scoped_paths_never_climb_out_of_the_root() {
    let fs = ScopedFileSystem::new(String::from("/srv")).unwrap();
    assert_eq!(fs.build_relative_path("a/../../b"), "/srv/b");
    assert_eq!(fs.build_relative_path("./x/./y/"), "/srv/x/y");
    assert_eq!(ScopedFileSystem::normalize_path(".."), "");
}
