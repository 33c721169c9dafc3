#[test]
fn format_bytes() {
    let byte_sizes = vec![1024., 1048576., 1073741824., 1099511627776.];

    let expect = vec![
        String::from("1.00 KB"),
        String::from("1.00 MB"),
        String::from("1.00 GB"),
        String::from("1.00 TB"),
    ];

    for (idx, size) in byte_sizes.into_iter().enumerate() {
        assert_eq!(http_server::fmt::format_bytes(size as u64), expect[idx]);
    }
}
