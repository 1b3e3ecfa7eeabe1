use story_brancher::parse::{parse_node, parse_target};
use story_brancher::story::Branch;

fn targets(text: &str) -> Vec<Option<usize>> {
    parse_node("n".to_string(), text).branches.iter().map(|b| b.target).collect()
}

#[test]
fn content_is_text_after_sentinel() {
    let n = parse_node("n".to_string(), "1, 2\nA, B\nignored\n+++\nfirst\n\nthird\n");
    assert_eq!(n.name, "n");
    assert_eq!(n.content, "first\n\nthird");
}

#[test]
fn content_without_sentinel_is_empty() {
    let n = parse_node("n".to_string(), "1, 2\nno sentinel here\n");
    assert_eq!(n.content, "");
    assert_eq!(n.branches.len(), 2);
}

#[test]
fn sentinel_is_excluded_and_only_the_first_counts() {
    let n = parse_node("n".to_string(), "0\n+++\n+++\nafter");
    assert_eq!(n.content, "+++\nafter");
    let n = parse_node("n".to_string(), "0\n+++ \nbody");
    assert_eq!(n.content, "");
}

#[test]
fn crlf_lines_are_read_as_lines() {
    let n = parse_node("n".to_string(), "3, 4\r\nC, D\r\n+++\r\nline one\r\nline two\r\n");
    assert_eq!(
        n.branches,
        vec![
            Branch { target: Some(3), label: Some("C".to_string()) },
            Branch { target: Some(4), label: Some("D".to_string()) },
        ]
    );
    assert_eq!(n.content, "line one\nline two");
}

#[test]
fn numeric_tokens_become_targets() {
    assert_eq!(targets("0, 12, 007, +5\n+++\n"), vec![Some(0), Some(12), Some(7), Some(5)]);
}

#[test]
fn non_numeric_tokens_have_no_target() {
    assert_eq!(
        targets("a, -1, 1 , , +, 2x\n+++\n"),
        vec![None, None, None, None, None, None]
    );
}

#[test]
fn separator_is_comma_and_one_space() {
    assert_eq!(targets("1,2\n+++\n"), vec![None]);
    assert_eq!(targets("1,  2\n+++\n"), vec![Some(1), None]);
    assert_eq!(targets("\n+++\n"), vec![None]);
}

#[test]
fn labels_pair_with_targets_by_position() {
    let n = parse_node("n".to_string(), "1, 2, 3\nOne, Two\n+++\nbody");
    assert_eq!(
        n.branches,
        vec![
            Branch { target: Some(1), label: Some("One".to_string()) },
            Branch { target: Some(2), label: Some("Two".to_string()) },
            Branch { target: Some(3), label: None },
        ]
    );
}

#[test]
fn first_line_is_header_even_when_it_reads_sentinel() {
    let n = parse_node("n".to_string(), "+++\nonly body");
    assert_eq!(
        n.branches,
        vec![Branch { target: None, label: Some("only body".to_string()) }]
    );
    assert_eq!(n.content, "");
    let n = parse_node("n".to_string(), "+++\n+++");
    assert_eq!(n.branches, vec![Branch { target: None, label: None }]);
    assert_eq!(n.content, "");
    let n = parse_node("n".to_string(), "+++\n+++\nbody");
    assert_eq!(n.content, "body");
    assert!(parse_node("n".to_string(), "").branches.is_empty());
    assert_eq!(parse_node("n".to_string(), "").content, "");
}

#[test]
fn parse_target_limits() {
    assert_eq!(parse_target("18446744073709551615"), Some(usize::MAX));
    assert_eq!(parse_target("18446744073709551616"), None);
    assert_eq!(parse_target("99999999999999999999x"), None);
    assert_eq!(parse_target(""), None);
    assert_eq!(parse_target("42"), Some(42));
    assert_eq!(parse_target("4 2"), None);
    assert_eq!(parse_target("٣"), None);
}
