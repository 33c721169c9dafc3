use http_server::query_params::{QueryParams, SortBy, UnknownSortOrder};

#[test]
fn builds_query_params_from_str() {
    let uri_string = "sort_by=name";
    let have = QueryParams::from_str(uri_string).unwrap();
    let expect = QueryParams {
        sort_by: Some(SortBy::Name),
    };

    assert_eq!(have, expect);
}

#[test]
fn sort_by_ignores_ascii_case() {
    assert_eq!(SortBy::from_str("Date_Modified"), Ok(SortBy::DateModified));
    assert_eq!(SortBy::from_str("SIZE"), Ok(SortBy::Size));
    assert_eq!(SortBy::from_str("date_created"), Ok(SortBy::DateCreated));
    assert_eq!(SortBy::from_str("weight"), Err(UnknownSortOrder));
}

#[test]
fn last_known_sort_pair_wins() {
    let have = QueryParams::from_str("sort_by=size&x=1&sort_by=bogus&flag").unwrap();
    assert_eq!(have, QueryParams { sort_by: Some(SortBy::Size) });
    let have = QueryParams::from_str("sort_by=size&sort_by=name=extra").unwrap();
    assert_eq!(have, QueryParams { sort_by: Some(SortBy::Name) });
    let have = QueryParams::from_str("").unwrap();
    assert_eq!(have, QueryParams { sort_by: None });
}
