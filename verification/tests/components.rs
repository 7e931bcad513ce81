//! Unit tests for the region finder, the splitter, the trimmer and the
//! splicer.

use corre::engine::split_first_region;
use corre::engine::splice_output;
use corre::matching::find_first_region;
use corre::trim::trim_ascii_whitespace;

#[test]
fn finds_leftmost_region() {
    assert_eq!(find_first_region("x[[a]][[b]]", "[[", "]]"), Some((1, 6)));
}

#[test]
fn nearest_closing_tag_ends_the_region() {
    assert_eq!(find_first_region("[[one]]mid[[two]]", "[[", "]]"), Some((0, 7)));
}

#[test]
fn stray_closer_before_the_region_is_ignored() {
    assert_eq!(find_first_region("]]x[[y]]", "[[", "]]"), Some((3, 8)));
}

#[test]
fn no_region_without_closing_tag() {
    assert_eq!(find_first_region("[[abc", "[[", "]]"), None);
    assert_eq!(find_first_region("plain", "[[", "]]"), None);
}

#[test]
fn empty_region_is_found() {
    assert_eq!(find_first_region("a[[]]b", "[[", "]]"), Some((1, 5)));
}

#[test]
fn region_may_span_lines() {
    assert_eq!(find_first_region("a[[x\ny]]b", "[[", "]]"), Some((1, 8)));
}

#[test]
fn inner_opening_tag_is_ordinary_content() {
    assert_eq!(find_first_region("<<a<<b>>c", "<<", ">>"), Some((0, 8)));
}

#[test]
fn splits_around_first_region() {
    let (before, script, after) = split_first_region("pre[[cmd]]post", "[[", "]]").unwrap();
    assert_eq!(before, "pre");
    assert_eq!(script, "cmd");
    assert_eq!(after, "post");
}

#[test]
fn split_returns_none_without_region() {
    assert!(split_first_region("pre [[ post", "[[", "]]").is_none());
}

#[test]
fn trims_ascii_whitespace_at_both_ends() {
    assert_eq!(trim_ascii_whitespace(" \t\r\n\u{0c}x y\n\t "), "x y");
    assert_eq!(trim_ascii_whitespace("plain"), "plain");
    assert_eq!(trim_ascii_whitespace("   "), "");
    assert_eq!(trim_ascii_whitespace(""), "");
}

#[test]
fn splice_without_recur_finishes_the_output() {
    let (finished, rest) = splice_output(String::from("A"), " hi \n", "B", false);
    assert_eq!(finished, "Ahi");
    assert_eq!(rest, "B");
}

#[test]
fn splice_with_recur_rescans_the_output() {
    let (finished, rest) = splice_output(String::from("A"), " hi \n", "B", true);
    assert_eq!(finished, "A");
    assert_eq!(rest, "hiB");
}
