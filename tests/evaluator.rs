use jacarex::{
    highlight_segments, render_sample, sample_passes, PatternError, RegexAttempt, Segment, Style,
    TestKind, Text,
};

fn seg(start: usize, end: usize, style: Style) -> Segment {
    Segment { start, end, style }
}

/// The sample printed with emphasized parts in brackets.
fn bracketed(text: &Text, result: &Option<Vec<(usize, usize)>>) -> String {
    let r = render_sample(text, result);
    let s = text.as_str();
    let mut out = String::new();
    if r.quoted {
        out.push('"');
    }
    for g in &r.segments {
        match g.style {
            Style::Plain => out.push_str(&s[g.start..g.end]),
            Style::Emphasis => out.push_str(&format!("[{}]", &s[g.start..g.end])),
            Style::Alert => out.push_str(&format!("!{}!", &s[g.start..g.end])),
        }
    }
    if r.quoted {
        out.push('"');
    }
    out
}

#[test]
fn malformed_pattern_reports_engine_message() {
    let samples = vec![Text::Word("cat".to_string())];
    match RegexAttempt::new("c(at", &samples) {
        Err(PatternError::Syntax(msg)) => assert!(msg.contains("unclosed group")),
        other => panic!("unexpected {:?}", other.err()),
    }
    assert!(matches!(RegexAttempt::new("a{3,1}", &samples), Err(PatternError::Syntax(_))));
}

#[test]
fn oversized_pattern_reports_size_limit() {
    let samples = vec![Text::Word("cat".to_string())];
    match RegexAttempt::new(r"\w{1000}{1000}", &samples) {
        Err(PatternError::TooLarge(limit)) => assert!(limit > 0),
        other => panic!("unexpected {:?}", other.err()),
    }
}

#[test]
fn group_ranges_of_word() {
    let samples = vec![Text::Word("cat".to_string())];
    let attempt = RegexAttempt::new("c(a)t", &samples).unwrap();
    assert_eq!(attempt.captures, vec![Some(vec![(0, 3), (1, 2)])]);
    let rendered = attempt.render();
    assert_eq!(rendered.len(), 1);
    assert!(!rendered[0].quoted);
    assert_eq!(rendered[0].segments, vec![seg(0, 3, Style::Emphasis)]);
    assert_eq!(bracketed(&samples[0], &attempt.captures[0]), "[cat]");
}

#[test]
fn line_is_quoted_and_match_emphasized() {
    let samples = vec![Text::Line("the cat sat".to_string())];
    let attempt = RegexAttempt::new("cat", &samples).unwrap();
    assert_eq!(attempt.captures, vec![Some(vec![(4, 7)])]);
    let rendered = attempt.render();
    assert!(rendered[0].quoted);
    assert_eq!(
        rendered[0].segments,
        vec![seg(0, 4, Style::Plain), seg(4, 7, Style::Emphasis), seg(7, 11, Style::Plain)]
    );
    assert_eq!(bracketed(&samples[0], &attempt.captures[0]), "\"the [cat] sat\"");
}

#[test]
fn no_match_is_alerted_whole() {
    let samples = vec![Text::Word("dog".to_string()), Text::Line("a dog".to_string())];
    let attempt = RegexAttempt::new("cat", &samples).unwrap();
    assert_eq!(attempt.captures, vec![None, None]);
    assert_eq!(bracketed(&samples[0], &None), "!dog!");
    assert_eq!(bracketed(&samples[1], &None), "\"!a dog!\"");
    assert_eq!(attempt.render()[1].segments, vec![seg(0, 5, Style::Alert)]);
}

#[test]
fn groups_that_did_not_take_part_are_skipped() {
    let samples = vec![Text::Word("AZ".to_string())];
    let attempt = RegexAttempt::new(r"(\w)(\d)?(\w)", &samples).unwrap();
    assert_eq!(attempt.captures, vec![Some(vec![(0, 2), (0, 1), (1, 2)])]);
}

#[test]
fn multibyte_text_keeps_byte_ranges() {
    let samples = vec![Text::Line("añb".to_string())];
    let attempt = RegexAttempt::new("ñ", &samples).unwrap();
    assert_eq!(attempt.captures, vec![Some(vec![(1, 3)])]);
    assert_eq!(bracketed(&samples[0], &attempt.captures[0]), "\"a[ñ]b\"");
}

#[test]
fn every_sample_evaluated_in_order() {
    let samples = vec![
        Text::Word("cat".to_string()),
        Text::Word("dog".to_string()),
        Text::Line("bobcat".to_string()),
    ];
    let attempt = RegexAttempt::new("cat", &samples).unwrap();
    assert_eq!(attempt.captures, vec![Some(vec![(0, 3)]), None, Some(vec![(3, 6)])]);
}

#[test]
fn segments_adjacent_nested_and_empty_ranges() {
    assert_eq!(
        highlight_segments(5, &vec![(1, 1), (1, 2), (2, 3)]),
        vec![seg(0, 1, Style::Plain), seg(1, 2, Style::Emphasis), seg(2, 3, Style::Emphasis), seg(3, 5, Style::Plain)]
    );
    assert_eq!(
        highlight_segments(4, &vec![(0, 4), (1, 2)]),
        vec![seg(0, 4, Style::Emphasis)]
    );
    assert_eq!(highlight_segments(0, &vec![(0, 0)]), vec![]);
    assert_eq!(highlight_segments(3, &vec![]), vec![seg(0, 3, Style::Plain)]);
    assert_eq!(
        highlight_segments(6, &vec![(2, 4), (0, 1)]),
        vec![seg(0, 2, Style::Plain), seg(2, 4, Style::Emphasis), seg(4, 6, Style::Plain)]
    );
}

#[test]
fn full_match_passes_must_match() {
    let samples = vec![Text::Word("cat".to_string())];
    let attempt = RegexAttempt::new("c.t", &samples).unwrap();
    assert!(attempt.passed_all_tests(&[TestKind::MustMatch]));
}

#[test]
fn partial_match_fails_must_match() {
    let samples = vec![Text::Word("cat".to_string())];
    let attempt = RegexAttempt::new("a", &samples).unwrap();
    assert!(!attempt.passed_all_tests(&[TestKind::MustMatch]));
}

#[test]
fn must_not_match_passes_without_match_and_fails_on_partial() {
    let samples = vec![Text::Word("cat".to_string())];
    let none = RegexAttempt::new("dog", &samples).unwrap();
    assert!(none.passed_all_tests(&[TestKind::MustNotMatch]));
    let partial = RegexAttempt::new("a", &samples).unwrap();
    assert!(!partial.passed_all_tests(&[TestKind::MustNotMatch]));
}

#[test]
fn group_short_of_whole_fails_must_match() {
    let samples = vec![Text::Word("cat".to_string())];
    let attempt = RegexAttempt::new("c(a)t", &samples).unwrap();
    assert!(!attempt.passed_all_tests(&[TestKind::MustMatch]));
}

#[test]
fn expectations_pair_by_position() {
    let samples = vec![Text::Word("cat".to_string()), Text::Word("dog".to_string())];
    let attempt = RegexAttempt::new("cat", &samples).unwrap();
    assert!(attempt.passed_all_tests(&[TestKind::MustMatch, TestKind::MustNotMatch]));
    assert!(!attempt.passed_all_tests(&[TestKind::MustMatch, TestKind::MustMatch]));
    assert!(attempt.passed_all_tests(&[TestKind::MustMatch]));
    assert!(attempt.passed_all_tests(&[]));
}

#[test]
fn sample_passes_on_given_results() {
    let cat = Text::Word("cat".to_string());
    assert!(sample_passes(&cat, &Some(vec![(0, 3), (0, 3)]), TestKind::MustMatch));
    assert!(!sample_passes(&cat, &Some(vec![(0, 3), (1, 3)]), TestKind::MustMatch));
    assert!(!sample_passes(&cat, &None, TestKind::MustMatch));
    assert!(sample_passes(&cat, &None, TestKind::MustNotMatch));
    assert!(!sample_passes(&cat, &Some(vec![(0, 1)]), TestKind::MustNotMatch));
}
