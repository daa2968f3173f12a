use mcpls_core::identity::ConnectionId;
use mcpls_core::resources::{
    encode_path_chars, make_uri, parse_uri, ResourceSubscriptions, ResourceUriError,
    MAX_SUBSCRIPTIONS,
};

#[test]
fn test_make_uri_rejects_relative_path() {
    let result = make_uri("relative/path.rs");
    assert!(result.is_err());
}

#[test]
fn test_parse_uri_rejects_wrong_scheme() {
    let result = parse_uri("file:///home/user/main.rs");
    assert!(result.is_err());
}

#[test]
fn test_parse_uri_rejects_http_scheme() {
    let result = parse_uri("https://example.com/file.rs");
    assert!(result.is_err());
}

#[test]
fn test_make_uri_simple_path() {
    let uri = make_uri("/home/user/main.rs").unwrap();
    assert_eq!(uri, "lsp-diagnostics:///home/user/main.rs");
}

#[test]
fn test_make_uri_scheme_prefix() {
    let uri = make_uri("/tmp/file.rs").unwrap();
    assert!(uri.starts_with("lsp-diagnostics:///"));
}

#[test]
fn test_parse_uri_simple() {
    let path = "/home/user/main.rs";
    let uri = make_uri(path).unwrap();
    let recovered = parse_uri(&uri).unwrap();
    assert_eq!(recovered, path.as_bytes());
}

/// Round-trip: paths with spaces, unicode, `%`, `?`, `#`.
#[test]
fn test_round_trip_special_chars() {
    let paths = [
        "/home/user/my file.rs",
        "/tmp/café/main.rs",
        "/data/100%/test.rs",
        "/workspace/query?param/file.rs",
        "/repo/branch#fragment/src.rs",
        "/путь/к/файлу.rs",
    ];

    for raw in &paths {
        let uri = make_uri(raw).expect(raw);
        assert!(
            uri.starts_with("lsp-diagnostics:///"),
            "URI should start with correct scheme: {uri}"
        );
        let recovered = parse_uri(&uri).expect(&uri);
        assert_eq!(recovered, raw.as_bytes(), "Round-trip failed for: {raw}");
    }
}

#[test]
fn test_wire_format_percent_encoded() {
    let uri = make_uri("/home/user/my file.rs").unwrap();
    // Space must be percent-encoded as %20
    assert!(uri.contains("%20"), "Expected %20 in: {uri}");
    assert!(uri.starts_with("lsp-diagnostics:///"));
}

#[test]
fn test_make_uri_percent_encodes_reserved_chars() {
    let path = "/home/user/test[]^|{}`.ts";
    let uri = make_uri(path).unwrap();

    for (raw, encoded) in [
        ('[', "%5B"),
        (']', "%5D"),
        ('^', "%5E"),
        ('|', "%7C"),
        ('{', "%7B"),
        ('}', "%7D"),
        ('`', "%60"),
    ] {
        assert!(
            uri.contains(encoded),
            "expected {raw:?} to be percent-encoded as {encoded} in {uri}"
        );
    }
    assert!(
        !uri.contains(['[', ']', '^', '|', '{', '}', '`']),
        "no raw reserved characters should remain in {uri}"
    );
    assert_eq!(parse_uri(&uri).unwrap(), path.as_bytes());
}

#[test]
fn paths_that_look_like_drives_round_trip() {
    for raw in ["/c:foo/x.rs", "/c:/x", "/d|/y.rs", "/a/b:/c.rs", "/"] {
        let uri = make_uri(raw).expect(raw);
        assert_eq!(parse_uri(&uri).expect(&uri), raw.as_bytes());
    }
}

#[test]
fn every_error_names_what_was_wrong() {
    let Err(error) = make_uri("relative/path.rs") else {
        panic!("a relative path is refused");
    };
    assert!(matches!(error, ResourceUriError::InvalidPath(_)));
    assert!(error.to_text().contains("relative/path.rs"), "{}", error.to_text());

    let Err(error) = parse_uri("https://example.com/file.rs") else {
        panic!("another scheme is refused");
    };
    assert!(matches!(error, ResourceUriError::InvalidScheme(_)));
    assert!(
        error.to_text().contains("https://example.com/file.rs"),
        "{}",
        error.to_text()
    );

    let Err(error) = parse_uri("lsp-diagnostics://host/file.rs") else {
        panic!("a path on another host is refused");
    };
    assert!(matches!(
        error,
        ResourceUriError::DecodeFailed(_) | ResourceUriError::InvalidScheme(_)
    ));
}

#[test]
fn four_characters_are_escaped_and_no_others() {
    assert_eq!(
        encode_path_chars("file:///a[b]c^d|e%20f"),
        "file:///a%5Bb%5Dc%5Ed%7Ce%20f"
    );
}

#[test]
fn test_subscribe_and_contains() {
    let mut connections: u64 = 0;
    let mut subs = ResourceSubscriptions::new();
    let connection = ConnectionId::next(&mut connections);
    let uri = "lsp-diagnostics:///home/user/main.rs".to_string();
    assert!(!subs.contains(connection, &uri));
    assert!(subs.subscribe(connection, 1, uri.clone()).unwrap());
    assert!(subs.contains(connection, &uri));
    assert!(!subs.contains(ConnectionId::next(&mut connections), &uri));
}

#[test]
fn test_subscribe_duplicate_returns_false() {
    let mut connections: u64 = 0;
    let mut subs = ResourceSubscriptions::new();
    let connection = ConnectionId::next(&mut connections);
    let uri = "lsp-diagnostics:///tmp/file.rs".to_string();
    assert!(subs.subscribe(connection, 1, uri.clone()).unwrap());
    assert!(!subs.subscribe(connection, 1, uri).unwrap());
}

#[test]
fn test_unsubscribe_removes_only_that_connections_entry() {
    let mut connections: u64 = 0;
    let mut subs = ResourceSubscriptions::new();
    let one = ConnectionId::next(&mut connections);
    let two = ConnectionId::next(&mut connections);
    let uri = "lsp-diagnostics:///tmp/file.rs".to_string();
    subs.subscribe(one, 1, uri.clone()).unwrap();
    subs.subscribe(two, 2, uri.clone()).unwrap();
    assert!(subs.unsubscribe(one, &uri));
    assert!(!subs.contains(one, &uri));
    assert!(subs.contains(two, &uri));
    assert!(!subs.unsubscribe(one, &"lsp-diagnostics:///nonexistent.rs".to_string()));
}

#[test]
fn test_the_cap_is_per_connection() {
    let mut connections: u64 = 0;
    let mut subs = ResourceSubscriptions::new();
    let full = ConnectionId::next(&mut connections);
    for i in 0..MAX_SUBSCRIPTIONS {
        subs.subscribe(full, 1, format!("lsp-diagnostics:///file{i}.rs"))
            .unwrap();
    }
    assert!(subs
        .subscribe(full, 1, "lsp-diagnostics:///overflow.rs".to_string())
        .is_err());
    assert!(
        subs.subscribe(
            ConnectionId::next(&mut connections),
            2,
            "lsp-diagnostics:///overflow.rs".to_string()
        )
        .is_ok(),
        "one connection's subscriptions must not use up another's"
    );
}

#[test]
fn test_subscribers_and_remove_connection() {
    let mut connections: u64 = 0;
    let mut subs = ResourceSubscriptions::new();
    let one = ConnectionId::next(&mut connections);
    let two = ConnectionId::next(&mut connections);
    let uri = "lsp-diagnostics:///a.rs".to_string();
    subs.subscribe(one, 1, uri.clone()).unwrap();
    subs.subscribe(two, 2, uri.clone()).unwrap();
    let mut found: Vec<_> = subs
        .subscribers(&uri)
        .into_iter()
        .map(|(id, _)| id)
        .collect();
    found.sort();
    assert_eq!(found, vec![one, two]);
    subs.remove_connection(one);
    assert_eq!(subs.subscribers(&uri).len(), 1);
    assert!(!subs.is_empty());
    subs.remove_connection(two);
    assert!(subs.is_empty());
}

#[test]
fn the_root_directory_has_a_uri_too() {
    let uri = make_uri("/").unwrap();
    assert_eq!(uri, "lsp-diagnostics:///");
    assert_eq!(parse_uri(&uri).unwrap(), b"/");
}

#[test]
fn a_path_keeps_bytes_that_are_no_text() {
    let path = parse_uri("lsp-diagnostics:///tmp/a%FF%C3%A9.rs").unwrap();
    assert_eq!(path, b"/tmp/a\xff\xc3\xa9.rs");
    let other = parse_uri("lsp-diagnostics:///tmp/a%FE%C3%A9.rs").unwrap();
    assert_ne!(path, other);
}
