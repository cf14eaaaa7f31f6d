use cde_backend::path::resolve_path;

#[test]
fn relative_target_joins_current_directory() {
    assert_eq!(resolve_path("/home/guest", "notes.txt", "/home/guest"), "/home/guest/notes.txt");
    assert_eq!(resolve_path("/home/guest", "a/../b", "/home/guest"), "/home/guest/b");
    assert_eq!(resolve_path("/a/b", "./c//d/", "/h"), "/a/b/c/d");
}

#[test]
fn dot_is_the_current_directory() {
    assert_eq!(resolve_path("/home/guest", ".", "/home/guest"), "/home/guest");
}

#[test]
fn absolute_target_ignores_current_directory() {
    assert_eq!(resolve_path("/home/guest", "/etc/./x/../y", "/home/guest"), "/etc/y");
}

#[test]
fn tilde_is_home() {
    assert_eq!(resolve_path("/tmp", "~", "/home/guest"), "/home/guest");
    assert_eq!(resolve_path("/tmp", "~/docs/a", "/home/guest"), "/home/guest/docs/a");
    assert_eq!(resolve_path("/tmp", "~/", "/home/guest"), "/home/guest");
}

#[test]
fn tilde_inside_a_name_is_relative() {
    assert_eq!(resolve_path("/tmp", "~x", "/home/guest"), "/tmp/~x");
}

#[test]
fn parent_of_root_is_root() {
    assert_eq!(resolve_path("/", "..", "/home/guest"), "/");
    assert_eq!(resolve_path("/a", "../../../..", "/home/guest"), "/");
    assert_eq!(resolve_path("/a/b/c", "../../../..", "/home/guest"), "/");
    assert_eq!(resolve_path("/a/b/c/d/e", "../../../..", "/h"), "/a");
}

#[test]
fn empty_target_is_current_directory() {
    assert_eq!(resolve_path("/home/guest/", "", "/h"), "/home/guest");
    assert_eq!(resolve_path("/", "", "/h"), "/");
}

