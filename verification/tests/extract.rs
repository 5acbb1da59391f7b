use regex_extract::ExtractError;
use regex_extract::MatchRecord;

#[test]
fn find_all_emails() {
    let result =
        regex_extract::handle("\\w+@\\w+\\.\\w+", b"a@b.com and c@d.org", true).expect("handle");
    assert_eq!(result.count, 2);
}

#[test]
fn find_first_only() {
    let result = regex_extract::handle("\\d+", b"1 and 2 and 3", false).expect("handle");
    assert_eq!(result.count, 1);
    assert_eq!(result.matches[0].full, b"1".to_vec());
}

#[test]
fn no_match_returns_empty() {
    let result =
        regex_extract::handle("xyz", b"hello world", regex_extract::default_all()).expect("handle");
    assert_eq!(result.count, 0);
}

#[test]
fn capture_groups_extracted() {
    let result = regex_extract::handle("(\\w+)@(\\w+)", b"alice@example", regex_extract::default_all())
        .expect("handle");
    let groups = &result.matches[0].groups;
    assert_eq!(groups[0], Some(b"alice".to_vec()));
    assert_eq!(groups[1], Some(b"example".to_vec()));
}

#[test]
fn invalid_pattern_returns_error() {
    let result = regex_extract::handle("[invalid", b"test", regex_extract::default_all());
    assert!(result.is_err());
    assert!(result.unwrap_err().message().contains("invalid pattern"));
}

#[test]
fn empty_text_returns_empty_result() {
    let result = regex_extract::handle("\\d+", b"", regex_extract::default_all()).expect("handle");
    assert_eq!(result.count, 0);
}

#[test]
fn count_matches_length() {
    let result = regex_extract::handle("\\w+", b"one two three", true).expect("handle");
    assert_eq!(result.count, result.matches.len());
    assert_eq!(result.count, 3);
}

#[test]
fn first_only_is_first_of_all() {
    let all = regex_extract::handle("\\d+", b"1 and 2 and 3", true).expect("handle");
    let first = regex_extract::handle("\\d+", b"1 and 2 and 3", false).expect("handle");
    assert_eq!(all.count, 3);
    assert_eq!(first.count, 1);
    assert_eq!(first.matches[0], all.matches[0]);
}

#[test]
fn spans_select_full_match() {
    let text: &[u8] = b"a@b.com and c@d.org";
    let result = regex_extract::handle("\\w+@\\w+\\.\\w+", text, true).expect("handle");
    for m in &result.matches {
        assert!(m.start <= m.end && m.end <= text.len());
        assert_eq!(&text[m.start..m.end], m.full.as_slice());
    }
    assert_eq!(result.matches[0].start, 0);
    assert_eq!(result.matches[0].end, 7);
    assert_eq!(result.matches[1].start, 12);
    assert_eq!(result.matches[1].end, 19);
}

#[test]
fn groups_length_matches_declared_count() {
    let matcher = regex_extract::compile("(a)|(b)").expect("compile");
    assert_eq!(regex_extract::group_count(&matcher), 2);
    let result = regex_extract::handle("(a)|(b)", b"b", true).expect("handle");
    assert_eq!(result.count, 1);
    assert_eq!(result.matches[0].groups.len(), 2);
}

#[test]
fn untaken_branch_group_is_absent() {
    let result = regex_extract::handle("(a)|(b)", b"b", true).expect("handle");
    let groups = &result.matches[0].groups;
    assert_eq!(groups[0], None);
    assert_eq!(groups[1], Some(b"b".to_vec()));
}

#[test]
fn absent_group_differs_from_empty_capture() {
    let result = regex_extract::handle("(x?)y|(z)", b"y", true).expect("handle");
    let groups = &result.matches[0].groups;
    assert_eq!(groups[0], Some(Vec::new()));
    assert_eq!(groups[1], None);
}

#[test]
fn zero_capture_groups_yield_empty_groups() {
    let result = regex_extract::handle("\\d+", b"42", true).expect("handle");
    assert_eq!(result.count, 1);
    assert!(result.matches[0].groups.is_empty());
}

#[test]
fn empty_matches_advance_scan() {
    let result = regex_extract::handle("a*", b"bb", true).expect("handle");
    let spans: Vec<(usize, usize)> = result.matches.iter().map(|m| (m.start, m.end)).collect();
    assert_eq!(spans, vec![(0, 0), (1, 1), (2, 2)]);
    for m in &result.matches {
        assert_eq!(m.full, Vec::<u8>::new());
    }
}

#[test]
fn extraction_is_repeatable() {
    let a = regex_extract::handle("(\\w+)@(\\w+)", b"alice@example and bob@sample", true)
        .expect("handle");
    let b = regex_extract::handle("(\\w+)@(\\w+)", b"alice@example and bob@sample", true)
        .expect("handle");
    assert_eq!(a, b);
}

#[test]
fn error_carries_engine_diagnostic() {
    let err = match regex_extract::compile("(unclosed") {
        Ok(_) => panic!("compile must fail"),
        Err(e) => e,
    };
    let ExtractError::InvalidPattern(ref msg) = err;
    assert!(!msg.is_empty());
    let full = err.message();
    assert!(full.starts_with("invalid pattern: "));
    assert!(full.len() > "invalid pattern: ".len());
}

#[test]
fn build_match_guards_spans() {
    let text: &[u8] = b"hello";
    let caps: Vec<Option<(usize, usize)>> = vec![Some((0, 5)), Some((1, 3)), None];
    let m: MatchRecord = regex_extract::build_match(&caps, text);
    assert_eq!(m.full, b"hello".to_vec());
    assert_eq!(m.start, 0);
    assert_eq!(m.end, 5);
    assert_eq!(m.groups, vec![Some(b"el".to_vec()), None]);
}

#[test]
fn first_mode_on_no_match_is_empty() {
    let result = regex_extract::handle("xyz", b"hello world", false).expect("handle");
    assert_eq!(result.count, 0);
    assert!(result.matches.is_empty());
}
