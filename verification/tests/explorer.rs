use http_server::explorer::{
    breadcrumbs_from_path, entry_type, index_directory, make_absolute_path_from_req_path,
    make_dir_entry_link, parse_req_uri, sort_entries, BreadcrumbItem, DirectoryEntry, EntryType,
    NotUnderRoot, RawEntry, Sort, Timestamp,
};

#[test]
fn makes_dir_entry_link() {
    let root_dir = "/Users/bob/sources/http-server";
    let entry_path = "/Users/bob/sources/http-server/src/server/service/file_explorer.rs";

    assert_eq!(
        "/src/server/service/file_explorer.rs",
        make_dir_entry_link(root_dir, entry_path)
    );
}

#[test]
fn dir_entry_link_is_percent_encoded() {
    assert_eq!(make_dir_entry_link("./", "./my docs/a+b.txt"), "/my%20docs/a%2Bb.txt");
}

#[test]
fn builds_breadcrumbs_from_root_to_path() {
    let items = breadcrumbs_from_path("/srv/files", "/srv/files/my docs/notes").unwrap();
    assert_eq!(
        items,
        vec![
            BreadcrumbItem {
                depth: 0,
                entry_name: String::from("files"),
                entry_link: String::from("/"),
            },
            BreadcrumbItem {
                depth: 1,
                entry_name: String::from("my docs"),
                entry_link: String::from("/my%20docs"),
            },
            BreadcrumbItem {
                depth: 2,
                entry_name: String::from("notes"),
                entry_link: String::from("/my%20docs/notes"),
            },
        ]
    );
}

#[test]
fn breadcrumbs_of_the_root_are_the_root_alone() {
    let items = breadcrumbs_from_path("./", "./").unwrap();
    assert_eq!(items.len(), 1);
    assert_eq!(items[0].entry_name, ".");
    assert_eq!(items[0].entry_link, "/");
}

#[test]
fn breadcrumbs_refuse_a_path_outside_the_root() {
    assert_eq!(breadcrumbs_from_path("/srv/files", "/etc/passwd"), Err(NotUnderRoot));
}

#[test]
fn tells_entry_types_apart() {
    assert_eq!(entry_type("src", true), EntryType::Directory);
    assert_eq!(entry_type(".gitignore", false), EntryType::Git);
    assert_eq!(entry_type(".GITKEEP", false), EntryType::Git);
    assert_eq!(entry_type("justfile", false), EntryType::Justfile);
    assert_eq!(entry_type("README.md", false), EntryType::Markdown);
    assert_eq!(entry_type("main.RS", false), EntryType::Rust);
    assert_eq!(entry_type("Cargo.toml", false), EntryType::Toml);
    assert_eq!(entry_type("photo.png", false), EntryType::File);
    assert_eq!(entry_type("Makefile", false), EntryType::File);
}

fn entry(name: &str, is_dir: bool) -> DirectoryEntry {
    DirectoryEntry {
        display_name: String::from(name),
        is_dir,
        size_bytes: 0,
        entry_path: format!("/{}", name),
        entry_type: entry_type(name, is_dir),
        date_created: None,
        date_modified: None,
    }
}

#[test]
fn sorts_directories_by_name_before_files() {
    let entries = vec![
        entry("zeta.txt", false),
        entry("src", true),
        entry("alpha.txt", false),
        entry("docs", true),
        entry("Zoo", true),
    ];
    let sorted = sort_entries(entries);
    let names: Vec<&str> = sorted.iter().map(|e| e.display_name.as_str()).collect();
    assert_eq!(names, vec!["Zoo", "docs", "src", "zeta.txt", "alpha.txt"]);
}

#[test]
fn sorting_keeps_every_entry() {
    let entries = vec![entry("b", true), entry("a", true), entry("b", true), entry("x", false)];
    let sorted = sort_entries(entries);
    let names: Vec<&str> = sorted.iter().map(|e| e.display_name.as_str()).collect();
    assert_eq!(names, vec!["a", "b", "b", "x"]);
}

#[test]
fn indexes_a_directory() {
    let modified = Timestamp { secs: 1_600_000_000, nanos: 5 };
    let raw = vec![
        RawEntry {
            display_name: String::from("notes.md"),
            path: String::from("/srv/files/docs/notes.md"),
            is_dir: false,
            size_bytes: 42,
            date_created: None,
            date_modified: Some(modified),
        },
        RawEntry {
            display_name: String::from("img"),
            path: String::from("/srv/files/docs/img"),
            is_dir: true,
            size_bytes: 4096,
            date_created: None,
            date_modified: None,
        },
    ];
    let index = index_directory("/srv/files", "/srv/files/docs", raw).unwrap();
    assert_eq!(index.sort, Sort::Directory);
    assert_eq!(index.breadcrumbs.len(), 2);
    assert_eq!(index.breadcrumbs[1].entry_link, "/docs");
    assert_eq!(index.entries.len(), 2);
    assert_eq!(index.entries[0].display_name, "img");
    assert_eq!(index.entries[0].entry_path, "/docs/img");
    assert_eq!(index.entries[0].entry_type, EntryType::Directory);
    assert_eq!(index.entries[1].display_name, "notes.md");
    assert_eq!(index.entries[1].entry_path, "/docs/notes.md");
    assert_eq!(index.entries[1].entry_type, EntryType::Markdown);
    assert_eq!(index.entries[1].size_bytes, 42);
    assert_eq!(index.entries[1].date_modified, Some(modified));
}

#[test]
fn index_refuses_a_path_outside_the_root() {
    assert!(matches!(index_directory("/srv/files", "/tmp", Vec::new()), Err(NotUnderRoot)));
}

#[test]
fn parses_api_request_paths() {
    assert_eq!(parse_req_uri("/api/v1/docs/my%20file.txt"), "docs/my file.txt");
    assert_eq!(parse_req_uri("/api/v1"), "");
    assert_eq!(parse_req_uri("/api/v1/"), "");
}

#[test]
fn makes_absolute_paths_from_request_paths() {
    assert_eq!(make_absolute_path_from_req_path("./", "/docs/readme.md"), "./docs/readme.md");
    assert_eq!(make_absolute_path_from_req_path("/srv", "docs"), "/srv/docs");
    assert_eq!(make_absolute_path_from_req_path("/srv", "/"), "/srv/");
    assert_eq!(make_absolute_path_from_req_path("/srv/www", "/docs/"), "/srv/www/docs");
    assert_eq!(make_absolute_path_from_req_path("./", "/a/b/"), "./a/b");
}

#[test]
fn entry_links_decode_back_to_the_entry() {
    let link = make_dir_entry_link("/srv", "/srv/my docs/a+b %.txt");
    assert_eq!(link, "/my%20docs/a%2Bb%20%25.txt");
    assert_eq!(http_server::url_encode::decode_uri(&link), "my docs/a+b %.txt");
}
