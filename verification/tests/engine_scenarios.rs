//! End-to-end expansion scenarios, executed with the real system shell.

use corre::run_embedded_scripts;
use corre::ExecutionFailure;

#[test]
fn untagged_text_is_unchanged() {
    let text = "no markers anywhere in this text";
    let r = run_embedded_scripts(String::from(text), "[[", "]]", false).unwrap();
    assert_eq!(r, text);
    let r = run_embedded_scripts(String::from(text), "[[", "]]", true).unwrap();
    assert_eq!(r, text);
}

#[test]
fn empty_text_is_unchanged() {
    let r = run_embedded_scripts(String::new(), "[[", "]]", false).unwrap();
    assert_eq!(r, "");
}

#[test]
fn unmatched_opening_tag_is_unchanged() {
    let text = "before [[echo never closed";
    let r = run_embedded_scripts(String::from(text), "[[", "]]", false).unwrap();
    assert_eq!(r, text);
    let r = run_embedded_scripts(String::from(text), "[[", "]]", true).unwrap();
    assert_eq!(r, text);
}

#[test]
fn closing_tag_alone_is_unchanged() {
    let text = "stray ]] closer only";
    let r = run_embedded_scripts(String::from(text), "[[", "]]", false).unwrap();
    assert_eq!(r, text);
}

#[test]
fn single_substitution() {
    let r = run_embedded_scripts(String::from("A[[echo hi]]B"), "[[", "]]", false).unwrap();
    assert_eq!(r, "AhiB");
}

#[test]
fn non_greedy_two_regions() {
    let r = run_embedded_scripts(
        String::from("[[echo one]]mid[[echo two]]"),
        "[[",
        "]]",
        false,
    )
    .unwrap();
    assert_eq!(r, "onemidtwo");
}

#[test]
fn no_recur_leaves_output_unscanned() {
    let text = "X<<printf '%s' '<<nested>' '>'>>Y";
    let r = run_embedded_scripts(String::from(text), "<<", ">>", false).unwrap();
    assert_eq!(r, "X<<nested>>Y");
}

#[test]
fn recur_rescans_output() {
    let text = "X<<printf '%s' '<<nested>' '>'>>Y";
    let r = run_embedded_scripts(String::from(text), "<<", ">>", true).unwrap();
    assert_eq!(r, "XY");
}

#[test]
fn quoted_closing_tag_still_ends_the_region() {
    // Tag pairs do not nest: the nearest closing tag terminates the
    // region even inside shell quotes, so the script here is the
    // unterminated `echo '<<nested`, which the shell rejects with empty
    // output, and the leftover `'>>Y` passes through as plain text.
    let text = "X<<echo '<<nested>>'>>Y";
    let r = run_embedded_scripts(String::from(text), "<<", ">>", false).unwrap();
    assert_eq!(r, "X'>>Y");
}

#[test]
fn three_regions_resolve_left_to_right() {
    let text = "[[echo a]]-[[echo b]]-[[echo c]]";
    let r = run_embedded_scripts(String::from(text), "[[", "]]", false).unwrap();
    assert_eq!(r, "a-b-c");
    let r = run_embedded_scripts(String::from(text), "[[", "]]", true).unwrap();
    assert_eq!(r, "a-b-c");
}

#[test]
fn spawn_failure_aborts_whole_expansion() {
    let huge = "#".repeat(300_000);
    let text = format!("A[[echo ok]]B[[{}]]C", huge);
    let r = run_embedded_scripts(text, "[[", "]]", false);
    assert!(matches!(r, Err(ExecutionFailure::Process(_))));
}

#[test]
fn output_is_trimmed_before_splicing() {
    let r = run_embedded_scripts(String::from("T[[echo '  padded  ']]E"), "[[", "]]", false)
        .unwrap();
    assert_eq!(r, "TpaddedE");
}

#[test]
fn inner_whitespace_of_output_is_kept() {
    let r = run_embedded_scripts(
        String::from("A[[echo one; echo two]]B"),
        "[[",
        "]]",
        false,
    )
    .unwrap();
    assert_eq!(r, "Aone\ntwoB");
}

#[test]
fn script_may_span_lines() {
    let r = run_embedded_scripts(String::from("A[[\necho hi\n]]B"), "[[", "]]", false).unwrap();
    assert_eq!(r, "AhiB");
}

#[test]
fn empty_script_becomes_empty_output() {
    let r = run_embedded_scripts(String::from("A[[]]B"), "[[", "]]", false).unwrap();
    assert_eq!(r, "AB");
}

#[test]
fn longer_tags_work() {
    let r = run_embedded_scripts(
        String::from("<p>!((echo 3))! post(s)</p>"),
        "!((",
        "))!",
        false,
    )
    .unwrap();
    assert_eq!(r, "<p>3 post(s)</p>");
}
