use thundertray::path::{join_path, path_is_absolute};

#[test]
fn joining_follows_unix_paths() {
    assert_eq!(join_path("/home/u", ".thunderbird"), "/home/u/.thunderbird");
    assert_eq!(join_path("/home/u/", "a/b"), "/home/u/a/b");
    assert_eq!(join_path("", "a"), "a");
    assert_eq!(join_path("/home/u", "/abs/p"), "/abs/p");
}

#[test]
fn absolute_paths_start_at_the_root() {
    assert!(path_is_absolute("/x"));
    assert!(!path_is_absolute("x/y"));
    assert!(!path_is_absolute(""));
}
