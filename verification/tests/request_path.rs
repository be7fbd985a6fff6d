use nodejs_resolver::request_path::{get_module_name_from_request, get_path_from_request, split_slash_from_request};

#[test]
fn test_split_slash_from_request() {
    assert_eq!(split_slash_from_request("a"), None);
    assert_eq!(split_slash_from_request("a/b"), Some(1));
    assert_eq!(split_slash_from_request("@a"), None);
    assert_eq!(split_slash_from_request("@a/b"), None);
    assert_eq!(split_slash_from_request("@a/b/c"), Some(4));
}

#[test]
fn test_get_module_name_from_request() {
    assert_eq!(get_module_name_from_request("a"), "a");
    assert_eq!(get_module_name_from_request("a/b"), "a");
    assert_eq!(get_module_name_from_request("@a"), "@a");
    assert_eq!(get_module_name_from_request("@a/b"), "@a/b");
    assert_eq!(get_module_name_from_request("@a/b/c"), "@a/b");
}

#[test]
fn test_get_path_from_request() {
    assert_eq!(get_path_from_request("a"), None);
    assert_eq!(get_path_from_request("a/b"), Some("/b".into()));
    assert_eq!(get_path_from_request("@a"), None);
    assert_eq!(get_path_from_request("@a/b"), None);
    assert_eq!(get_path_from_request("@a/b/c"), Some("/c".into()));
}

#[test]
fn module_name_and_path_put_the_target_back() {
    for target in ["a/b/c", "@scope/pkg/lib/index.js", "pkg", "@scope/pkg"] {
        let name = get_module_name_from_request(target);
        let rest = get_path_from_request(target).unwrap_or_default();
        assert_eq!(format!("{name}{rest}"), target);
    }
}

#[test]
fn split_counts_characters_not_bytes() {
    assert_eq!(split_slash_from_request("中文/a"), Some(2));
    assert_eq!(get_module_name_from_request("中文/a"), "中文");
    assert_eq!(get_path_from_request("中文/a"), Some("/a".into()));
}
