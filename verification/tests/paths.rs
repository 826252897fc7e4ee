use pagong::error::AppError;
use pagong::escape::{escape_href, escape_html};
use pagong::fs_action::FsAction;
use pagong::utils::{get_abs_path, get_relative_uri, path_to_uri, replace_root};

#[test]
fn abs_path_relative_to_file() {
    let p = get_abs_path("/root", "/root/posts/a.md", "img/b.png");
    assert_eq!(p, "/root/posts/img/b.png");
}

#[test]
fn abs_path_relative_to_root() {
    let p = get_abs_path("/root", "/root/posts/a.md", "/c.css");
    assert_eq!(p, "/root/c.css");
}

#[test]
fn replace_root_swaps_prefix() {
    assert_eq!(replace_root("src", "dst", "src/x/y"), "dst/x/y");
    assert_eq!(replace_root("src", "dst", "src"), "dst/");
}

#[test]
fn path_to_uri_keeps_relative_part() {
    assert_eq!(path_to_uri("/root", "/root/a/b.html"), "/a/b.html");
}

#[test]
fn relative_uri_shares_directory() {
    assert_eq!(get_relative_uri("/a/b.html", "/a/c.html"), "c.html");
}

#[test]
fn relative_uri_climbs_out() {
    assert_eq!(get_relative_uri("/a/b.html", "/d/e.html"), "../d/e.html");
    assert_eq!(get_relative_uri("/a/x/b.html", "/a/c.html"), "../c.html");
}

#[test]
fn html_escaping_replaces_special_bytes() {
    assert_eq!(escape_html("<a&\"b>"), "&lt;a&amp;&quot;b&gt;");
    assert_eq!(escape_html("plain"), "plain");
}

#[test]
fn href_escaping_percent_encodes() {
    assert_eq!(escape_href("a b"), "a%20b");
    assert_eq!(escape_href("x&y'z"), "x&amp;y&#x27;z");
    assert_eq!(escape_href("caf\u{e9}"), "caf%C3%A9");
}

#[test]
fn error_messages_name_the_path() {
    let e = AppError::ReadFile { path: "p.md".to_owned() };
    assert_eq!(e.message(), "Failed to read file: \"p.md\"");
    let e = AppError::WriteDir { path: "d".to_owned(), reason: Some("weird entry".to_owned()) };
    assert_eq!(e.message(), "Failed to create directory (weird entry): \"d\"");
    let e = AppError::CopyFile { src_path: "a".to_owned(), dst_path: "b".to_owned() };
    assert_eq!(e.message(), "Failed to copy file \"a\" to \"b\"");
}

#[test]
fn fs_actions_carry_their_fields() {
    let a = FsAction::Copy { source: "a".to_owned(), dest: "b".to_owned() };
    assert!(matches!(a, FsAction::Copy { .. }));
    let d = FsAction::DeleteDir { path: "p".to_owned(), not_exists_ok: true, recursive: false };
    assert!(matches!(d, FsAction::DeleteDir { not_exists_ok: true, recursive: false, .. }));
}
