use lean_ctx::roots::{
    best_root_from_uris, root_from_env, uri_to_path, valid_dir_paths_from_uris, EnvRoot,
    ResolvedRoot,
};

fn root(path: &str, is_dir: bool, has_marker: bool) -> ResolvedRoot {
    ResolvedRoot { path: path.to_string(), is_dir, has_marker }
}

#[test]
fn parse_file_uri_unix() {
    assert_eq!(
        uri_to_path("file:///home/user/project"),
        Some("/home/user/project".to_string())
    );
}

#[test]
fn parse_file_uri_windows() {
    assert_eq!(
        uri_to_path("file:///C:/Users/dev/project"),
        Some("/C:/Users/dev/project".to_string())
    );
}

#[test]
fn parse_file_uri_with_spaces() {
    assert_eq!(
        uri_to_path("file:///home/user/my%20project"),
        Some("/home/user/my project".to_string())
    );
}

#[test]
fn parse_non_file_uri_returns_none() {
    assert!(uri_to_path("https://example.com").is_none());
    assert!(uri_to_path("").is_none());
}

#[test]
fn rejects_null_bytes() {
    assert!(uri_to_path("file:///tmp/evil%00path").is_none());
}

#[test]
fn rejects_relative_uri() {
    assert!(uri_to_path("file://relative/path").is_none());
}

#[test]
fn best_root_skips_nonexistent() {
    // The filesystem reports that the decoded path is not a directory.
    let path = uri_to_path("file:///nonexistent_abc_123").unwrap();
    let roots = vec![root(&path, false, false)];
    assert!(best_root_from_uris(&roots).is_none());
}

#[test]
fn best_root_empty_returns_none() {
    assert!(best_root_from_uris(&[]).is_none());
}

#[test]
fn best_root_prefers_marker() {
    let roots = vec![root("/tmp/x/plain", true, false), root("/tmp/x/has_git", true, true)];
    let result = best_root_from_uris(&roots).unwrap();
    assert!(result.contains("has_git"));
}

#[test]
fn best_root_falls_back_to_first_existing_dir() {
    let roots = vec![root("/tmp/x/dir_a", true, false), root("/tmp/x/dir_b", true, false)];
    let result = best_root_from_uris(&roots).unwrap();
    assert!(result.contains("dir_a"));
}

#[test]
fn all_paths_from_uris() {
    let roots = vec![root("/tmp/x/project_a", true, true), root("/tmp/x/project_b", true, false)];
    let paths = valid_dir_paths_from_uris(&roots);
    assert_eq!(paths.len(), 2);
    assert!(paths[0].contains("project_a"));
    assert!(paths[1].contains("project_b"));
    let best = best_root_from_uris(&roots).unwrap();
    assert!(best.contains("project_a"));
}

#[test]
fn marker_outside_a_directory_does_not_count() {
    let roots = vec![
        root("/gone", false, true),
        root("/a", true, false),
        root("/b", true, true),
    ];
    assert_eq!(best_root_from_uris(&roots), Some("/b".to_string()));
    assert_eq!(valid_dir_paths_from_uris(&roots), vec!["/a".to_string(), "/b".to_string()]);
}

#[test]
fn percent_decoding_edge_cases() {
    // Invalid escape: '%' is kept, the two bytes after it are consumed.
    assert_eq!(uri_to_path("file:///a%zzb"), Some("/a%b".to_string()));
    // Truncated escape at the end.
    assert_eq!(uri_to_path("file:///a%4"), Some("/a%".to_string()));
    // Upper- and lower-case hex digits; decoded bytes are read as UTF-8.
    assert_eq!(uri_to_path("file:///%2fx%2Fy%41"), Some("//x/yA".to_string()));
    assert_eq!(uri_to_path("file:///%C3%A4"), Some("/\u{e4}".to_string()));
    // Decoding to a relative path is refused.
    assert!(uri_to_path("file://%2Ftmp").is_some());
    assert!(uri_to_path("file://x%2Ftmp").is_none());
    assert!(uri_to_path("file://").is_none());
}

#[test]
fn decoded_bytes_are_read_as_utf8() {
    assert_eq!(uri_to_path("file:///tmp/m%C3%BCller"), Some("/tmp/m\u{fc}ller".to_string()));
    assert_eq!(uri_to_path("file:///tmp/m\u{fc}ller"), Some("/tmp/m\u{fc}ller".to_string()));
    assert_eq!(uri_to_path("file:///tmp/%E4%B8%AD"), Some("/tmp/\u{4e2d}".to_string()));
    // Bytes that are not valid UTF-8 are read one by one.
    assert_eq!(uri_to_path("file:///tmp/%FF"), Some("/tmp/\u{ff}".to_string()));
    assert_eq!(uri_to_path("file:///tmp/%C3x"), Some("/tmp/\u{c3}x".to_string()));
}

#[test]
fn env_root_takes_the_first_usable_variable() {
    let root = |t: &str, d: bool| EnvRoot { trimmed: t.to_string(), is_dir: d };
    assert_eq!(root_from_env(&[]), None);
    assert_eq!(root_from_env(&[root("/a", false), root("/b", true)]), Some("/b".to_string()));
    assert_eq!(root_from_env(&[root("/a", true), root("/b", true)]), Some("/a".to_string()));
    assert_eq!(root_from_env(&[root("", true)]), None);
}
