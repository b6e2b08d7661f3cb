use linedye::ColorName;
use linedye::Outcome;
use linedye::RuleSet;
use linedye::compile;
use linedye::outcome_eq;
use linedye::style_line;

fn rules(texts: &[&str]) -> RuleSet {
    let owned: Vec<String> = texts.iter().map(|t| t.to_string()).collect();
    match compile(&owned) {
        Ok(rs) => rs,
        Err(_) => panic!("expected successful compilation"),
    }
}

#[test]
fn passthrough_keeps_the_line_byte_for_byte() {
    let rs = rules(&["/xyz", "=red"]);
    match style_line(&rs, "hello world") {
        Outcome::Passthrough { text } => assert_eq!(text, "hello world"),
        _ => panic!("expected passthrough"),
    }
}

#[test]
fn empty_ruleset_passes_everything_through() {
    let rs = rules(&[]);
    match style_line(&rs, "anything") {
        Outcome::Passthrough { text } => assert_eq!(text, "anything"),
        _ => panic!("expected passthrough"),
    }
}

#[test]
fn matched_line_renders_with_color() {
    let rs = rules(&["/error", "=red"]);
    match style_line(&rs, "error: disk full") {
        Outcome::Render { bold, underline, color, text } => {
            assert!(!bold);
            assert!(!underline);
            assert_eq!(color, Some(ColorName::Red));
            assert_eq!(text, "error: disk full");
        }
        _ => panic!("expected render"),
    }
}

#[test]
fn first_matching_pattern_wins() {
    // Both patterns match; the first declared decides, so the color is red,
    // not blue.
    let rs = rules(&["/err", "=red", "/e", "=blue"]);
    match style_line(&rs, "err here") {
        Outcome::Render { color, .. } => assert_eq!(color, Some(ColorName::Red)),
        _ => panic!("expected render"),
    }
    // A line that only the second pattern matches falls through to it.
    match style_line(&rs, "echo") {
        Outcome::Render { color, .. } => assert_eq!(color, Some(ColorName::Blue)),
        _ => panic!("expected render"),
    }
}

#[test]
fn suppressed_line_produces_nothing() {
    let rs = rules(&["/debug", "-"]);
    assert!(matches!(style_line(&rs, "debug: trace"), Outcome::Suppressed));
}

#[test]
fn styles_accumulate_until_the_color() {
    let rs = rules(&["/warn", "+bu", "=yellow"]);
    match style_line(&rs, "warn: low memory") {
        Outcome::Render { bold, underline, color, text } => {
            assert!(bold);
            assert!(underline);
            assert_eq!(color, Some(ColorName::Yellow));
            assert_eq!(text, "warn: low memory");
        }
        _ => panic!("expected render"),
    }
}

#[test]
fn default_color_renders_style_only() {
    let rs = rules(&["/note", "+u", "=default"]);
    match style_line(&rs, "note: see above") {
        Outcome::Render { bold, underline, color, .. } => {
            assert!(!bold);
            assert!(underline);
            assert_eq!(color, None);
        }
        _ => panic!("expected render"),
    }
}

#[test]
fn first_color_terminates_the_span() {
    // Two colors close the two capture groups; only the first fires.
    let rs = rules(&["/e(r)r", "=green", "=blue"]);
    match style_line(&rs, "err") {
        Outcome::Render { color, .. } => assert_eq!(color, Some(ColorName::Green)),
        _ => panic!("expected render"),
    }
}

#[test]
fn styling_is_idempotent() {
    let rs = rules(&["/err", "+b", "=red", "/debug", "-"]);
    for line in ["err: x", "debug: y", "plain"] {
        let first = style_line(&rs, line);
        let second = style_line(&rs, line);
        assert!(outcome_eq(&first, &second));
    }
}

#[test]
fn outcome_eq_distinguishes_outcomes() {
    let rs = rules(&["/err", "=red", "/debug", "-"]);
    let rendered = style_line(&rs, "err: x");
    let suppressed = style_line(&rs, "debug: y");
    let passed = style_line(&rs, "plain");
    assert!(!outcome_eq(&rendered, &suppressed));
    assert!(!outcome_eq(&rendered, &passed));
    assert!(!outcome_eq(&suppressed, &passed));
    let other_text = style_line(&rs, "err: other");
    assert!(!outcome_eq(&rendered, &other_text));
}

#[test]
fn end_to_end_example() {
    let rs = rules(&["/error", "=red", "/warn", "+b", "=yellow", "/debug", "-"]);

    match style_line(&rs, "error: disk full") {
        Outcome::Render { bold, underline, color, text } => {
            assert!(!bold);
            assert!(!underline);
            assert_eq!(color, Some(ColorName::Red));
            assert_eq!(text, "error: disk full");
        }
        _ => panic!("expected render"),
    }

    match style_line(&rs, "warn: low memory") {
        Outcome::Render { bold, underline, color, text } => {
            assert!(bold);
            assert!(!underline);
            assert_eq!(color, Some(ColorName::Yellow));
            assert_eq!(text, "warn: low memory");
        }
        _ => panic!("expected render"),
    }

    assert!(matches!(style_line(&rs, "debug: trace"), Outcome::Suppressed));

    match style_line(&rs, "info: ok") {
        Outcome::Passthrough { text } => assert_eq!(text, "info: ok"),
        _ => panic!("expected passthrough"),
    }
}
