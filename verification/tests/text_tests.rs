use package_lib::changelog::build_changelog_text;
use package_lib::diff::split_header;
use package_lib::io::{read_to_string, strip_bom, NormalizeLineEndings, Trim};
use package_lib::lex::str_le;
use package_lib::paths::{join_components, path_components, strip_path_prefix};

#[test]
fn trim_removes_surrounding_whitespace() {
    let mut s = "  \t hello world \n".to_string();
    s.trim();
    assert_eq!(s, "hello world");
}

#[test]
fn trim_of_all_whitespace_is_empty() {
    let mut s = " \t\r\n ".to_string();
    s.trim();
    assert_eq!(s, "");
}

#[test]
fn trim_keeps_inner_whitespace() {
    let mut s = "a  b".to_string();
    s.trim();
    assert_eq!(s, "a  b");
}

#[test]
fn normalize_line_endings_drops_carriage_returns() {
    let mut s = "a\r\nb\r\nc".to_string();
    s.normalize_line_endings();
    assert_eq!(s, "a\nb\nc");
}

#[test]
fn strip_bom_removes_utf8_mark() {
    let bytes = vec![0xef, 0xbb, 0xbf, b'h', b'i'];
    assert_eq!(strip_bom(&bytes), vec![b'h', b'i']);
}

#[test]
fn strip_bom_keeps_plain_data() {
    let bytes = vec![b'h', b'i'];
    assert_eq!(strip_bom(&bytes), vec![b'h', b'i']);
}

#[test]
fn strip_bom_removes_utf16_mark() {
    let bytes = vec![0xff, 0xfe, b'h', b'\0'];
    assert_eq!(strip_bom(&bytes), vec![b'h', b'\0']);
}

#[test]
fn read_to_string_decodes_after_the_mark() {
    let bytes = vec![0xef, 0xbb, 0xbf, b'h', b'i'];
    assert_eq!(read_to_string(&bytes), Some("hi".to_string()));
}

#[test]
fn read_to_string_rejects_invalid_utf8() {
    let bytes = vec![b'a', 0xff, 0xff];
    assert_eq!(read_to_string(&bytes), None);
}

#[test]
fn changelog_text_appends_entry_and_items() {
    let existing = "# Notes\n\n## Version 1.0.0\n - old\n\n";
    let items = vec![" - fixed a bug".to_string(), " - added a thing".to_string()];
    let text = build_changelog_text(existing, "\n## Version 1.1.0", &items);
    assert_eq!(
        text,
        "# Notes\n\n## Version 1.0.0\n - old\n\n## Version 1.1.0\n - fixed a bug\n - added a thing\n"
    );
}

#[test]
fn changelog_text_on_empty_file_starts_clean() {
    let items = vec![" - first".to_string()];
    let text = build_changelog_text("", "## Version 0.1.0", &items);
    assert_eq!(text, "## Version 0.1.0\n - first\n");
}

#[test]
fn changelog_text_normalizes_crlf() {
    let items = vec![" - x".to_string()];
    let text = build_changelog_text("line1\r\nline2\r\n", "## V", &items);
    assert_eq!(text, "line1\nline2\n## V\n - x\n");
}

#[test]
fn split_header_divides_at_fourth_at_sign() {
    let (lines, context) = split_header("@@ -1,4 +1,6 @@ fn main() {");
    assert_eq!(lines, "@@ -1,4 +1,6 @@");
    assert_eq!(context, "fn main() {");
}

#[test]
fn split_header_without_marks_is_all_context() {
    let (lines, context) = split_header("no marks here");
    assert_eq!(lines, "");
    assert_eq!(context, "no marks here");
}

#[test]
fn path_components_split_on_slashes() {
    let comps = path_components("Packages/com.foo/Editor/Script.cs");
    assert_eq!(comps, vec!["Packages", "com.foo", "Editor", "Script.cs"]);
}

#[test]
fn path_components_drop_empty_segments() {
    let comps = path_components("/a//b/");
    assert_eq!(comps, vec!["a", "b"]);
}

#[test]
fn join_components_uses_single_separators() {
    let comps = vec!["a".to_string(), "b".to_string(), "c".to_string()];
    assert_eq!(join_components(&comps), "a/b/c");
    assert_eq!(join_components(&vec![]), "");
}

#[test]
fn strip_path_prefix_removes_the_base() {
    assert_eq!(strip_path_prefix("/repo/Packages/p", "/repo"), "Packages/p");
    assert_eq!(strip_path_prefix("/repo/Packages/p", "/other"), "/repo/Packages/p");
    assert_eq!(strip_path_prefix("a/b", "a/b/c"), "a/b");
}

#[test]
fn str_le_orders_lexicographically() {
    assert!(str_le("", "a"));
    assert!(str_le("a", "a"));
    assert!(str_le("a", "b"));
    assert!(!str_le("b", "a"));
    assert!(str_le("ab", "b"));
    assert!(str_le("a", "ab"));
    assert!(!str_le("ab", "a"));
}
