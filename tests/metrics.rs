use blackjack::metrics::sanitize_path_segments;

#[test]
fn test_sanitize_path() {
    let path_includes: Vec<String> = vec![String::from("users"), String::from("registration")];

    let path = "/users/12345/registration/9797731279";
    let sanitized_path = sanitize_path_segments(&path_includes, path);

    assert_eq!("/users/*/registration/*".to_string(), sanitized_path)
}

#[test]
fn test_sanitize_path_with_value_first() {
    let path_includes: Vec<String> = vec![String::from("users"), String::from("registration")];

    let path = "12344235/users/12345/12314151252/registration";
    let sanitized_path = sanitize_path_segments(&path_includes, path);

    assert_eq!("/*/users/*/*/registration".to_string(), sanitized_path)
}

#[test]
fn test_sanitize_path_with_multiple_segments_in_order() {
    let path_includes: Vec<String> = vec![String::from("users"), String::from("registration")];

    let path = "/users/12345/12314151252/registration";
    let sanitized_path = sanitize_path_segments(&path_includes, path);

    assert_eq!("/users/*/*/registration".to_string(), sanitized_path)
}

#[test]
fn test_totally_wrong_path() {
    let path_includes: Vec<String> = vec![String::from("users"), String::from("registration")];

    let path = "12344235/12141242/12345/12314151252/235235235";
    let sanitized_path = sanitize_path_segments(&path_includes, path);

    assert_eq!("/*/*/*/*/*".to_string(), sanitized_path)
}

#[test]
fn sanitize_empty_and_root_paths() {
    let path_includes: Vec<String> = vec![String::from("shuffle")];
    assert_eq!(sanitize_path_segments(&path_includes, ""), "");
    assert_eq!(sanitize_path_segments(&path_includes, "/"), "");
    assert_eq!(sanitize_path_segments(&path_includes, "/shuffle"), "/shuffle");
    assert_eq!(sanitize_path_segments(&path_includes, "//shuffle//x"), "/shuffle/*");
    assert_eq!(sanitize_path_segments(&Vec::new(), "/shuffle"), "/*");
}
