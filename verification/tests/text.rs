use git_survey::text::byte_length;
use git_survey::text::last_segment_of;
use git_survey::text::push_decimal;
use git_survey::text::push_padded;
use git_survey::text::relative_to;
use git_survey::text::split;

fn decimal(n: usize) -> String {
    let mut s = String::new();
    push_decimal(&mut s, n);
    s
}

fn padded(name: &str, width: usize) -> String {
    let mut s = String::new();
    push_padded(&mut s, name, width);
    s
}

#[test]
fn numbers_are_written_in_decimal() {
    assert_eq!(decimal(0), "0");
    assert_eq!(decimal(7), "7");
    assert_eq!(decimal(10), "10");
    assert_eq!(decimal(1234567890), "1234567890");
    assert_eq!(decimal(usize::MAX), usize::MAX.to_string());
}

#[test]
fn decimal_is_appended_to_what_is_there() {
    let mut s = String::from("n=");
    push_decimal(&mut s, 405);
    assert_eq!(s, "n=405");
}

#[test]
fn names_are_filled_up_with_spaces() {
    assert_eq!(padded("a", 8), "a       ");
    assert_eq!(padded("longname", 8), "longname");
    assert_eq!(padded("longname", 3), "longname");
    assert_eq!(padded("", 2), "  ");
    assert_eq!(padded("", 0), "");
    assert_eq!(padded("é", 3), "é  ");
}

#[test]
fn length_counts_bytes() {
    assert_eq!(byte_length(""), 0);
    assert_eq!(byte_length("longname"), 8);
    assert_eq!(byte_length("é"), 2);
}

#[test]
fn a_path_is_cut_at_each_slash() {
    assert_eq!(split("a/b"), vec!["a", "b"]);
    assert_eq!(split("a"), vec!["a"]);
    assert_eq!(split("x/y/z"), vec!["x", "y", "z"]);
}

#[test]
fn empty_segments_are_kept() {
    assert_eq!(split(""), vec![""]);
    assert_eq!(split("/"), vec!["", ""]);
    assert_eq!(split("a//b"), vec!["a", "", "b"]);
    assert_eq!(split("a/"), vec!["a", ""]);
    assert_eq!(split("/a"), vec!["", "a"]);
}

#[test]
fn split_agrees_with_the_standard_library() {
    for path in ["", "/", "a", "a/b", "/a/b/", "//", "dir/ü/x", "a b/c"] {
        let expected: Vec<String> = path.split('/').map(|x| x.to_string()).collect();
        assert_eq!(split(path), expected, "path {:?}", path);
    }
}

#[test]
fn the_name_is_the_last_segment() {
    assert_eq!(last_segment_of("/home/me/proj"), "proj");
    assert_eq!(last_segment_of("proj"), "proj");
    assert_eq!(last_segment_of("/home/me/proj/"), "");
    assert_eq!(last_segment_of(""), "");
}

#[test]
fn a_path_below_the_root_loses_the_root() {
    assert_eq!(relative_to("/root/a/b", "/root"), "a/b");
    assert_eq!(relative_to("/root/a", "/root/"), "a");
    assert_eq!(relative_to("/a", "/"), "a");
    assert_eq!(relative_to("/root", "/root"), "");
    assert_eq!(relative_to("a/b", ""), "a/b");
    assert_eq!(relative_to("/a/b", ""), "a/b");
}

#[test]
fn a_path_elsewhere_stays_as_it_is() {
    assert_eq!(relative_to("/rootx/a", "/root"), "/rootx/a");
    assert_eq!(relative_to("/other/a", "/root"), "/other/a");
    assert_eq!(relative_to("/ro", "/root"), "/ro");
}
