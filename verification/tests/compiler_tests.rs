use linedye::ColorName;
use linedye::CompileError;
use linedye::Directive;
use linedye::RuleSet;
use linedye::compile;

fn lines(texts: &[&str]) -> Vec<String> {
    texts.iter().map(|t| t.to_string()).collect()
}

fn compile_ok(texts: &[&str]) -> RuleSet {
    match compile(&lines(texts)) {
        Ok(rs) => rs,
        Err(_) => panic!("expected successful compilation"),
    }
}

fn compile_err(texts: &[&str]) -> CompileError {
    match compile(&lines(texts)) {
        Ok(_) => panic!("expected compilation to fail"),
        Err(e) => e,
    }
}

#[test]
fn single_rule_balanced() {
    // `/error` declares one capture group (the implicit whole-match group),
    // so exactly one color closes it.
    let rs = compile_ok(&["/error", "=red"]);
    assert_eq!(rs.len(), 2);
    match rs.directive(0) {
        Directive::Pattern(p) => assert_eq!(p.source_str(), "error"),
        _ => panic!("expected a pattern first"),
    }
    assert!(matches!(rs.directive(1), Directive::Color(ColorName::Red)));
}

#[test]
fn explicit_captures_need_more_colors() {
    // One explicit group plus the implicit one: two colors, with a style
    // interleaved before the last color.
    let rs = compile_ok(&["/e(r)ror", "=red", "+b", "=blue"]);
    assert_eq!(rs.len(), 4);
    assert!(matches!(rs.directive(0), Directive::Pattern(_)));
    assert!(matches!(rs.directive(1), Directive::Color(ColorName::Red)));
    assert!(matches!(rs.directive(2), Directive::Bold));
    assert!(matches!(rs.directive(3), Directive::Color(ColorName::Blue)));
}

#[test]
fn all_color_names_recognized() {
    let rs = compile_ok(&[
        "/a", "=black", "/b", "=green", "/c", "=yellow", "/d", "=purple", "/e", "=cyan", "/f",
        "=white", "/g", "=default",
    ]);
    assert_eq!(rs.len(), 14);
    assert!(matches!(rs.directive(1), Directive::Color(ColorName::Black)));
    assert!(matches!(rs.directive(3), Directive::Color(ColorName::Green)));
    assert!(matches!(rs.directive(5), Directive::Color(ColorName::Yellow)));
    assert!(matches!(rs.directive(7), Directive::Color(ColorName::Purple)));
    assert!(matches!(rs.directive(9), Directive::Color(ColorName::Cyan)));
    assert!(matches!(rs.directive(11), Directive::Color(ColorName::White)));
    assert!(matches!(rs.directive(13), Directive::ColorDefault));
}

#[test]
fn missing_colors_at_end_of_file() {
    // `(a)(b)` declares three groups counting the implicit one; none is
    // matched by a color, and the error says how many were expected.
    match compile_err(&["/(a)(b)"]) {
        CompileError::MissingColors { expected } => assert_eq!(expected, 3),
        _ => panic!("expected missing colors"),
    }
}

#[test]
fn partially_consumed_captures_still_fail() {
    match compile_err(&["/(a)", "=red"]) {
        CompileError::MissingColors { expected } => assert_eq!(expected, 1),
        _ => panic!("expected missing colors"),
    }
}

#[test]
fn pattern_while_captures_pending() {
    match compile_err(&["/(a)x", "=red", "/b", "=green"]) {
        CompileError::PatternWhilePending { line } => assert_eq!(line, 3),
        _ => panic!("expected pattern-while-pending"),
    }
}

#[test]
fn extra_color_without_pattern() {
    match compile_err(&["=red"]) {
        CompileError::ExtraColor { line } => assert_eq!(line, 1),
        _ => panic!("expected extra color"),
    }
}

#[test]
fn extra_color_after_closed_rule() {
    match compile_err(&["/a", "=red", "=green"]) {
        CompileError::ExtraColor { line } => assert_eq!(line, 3),
        _ => panic!("expected extra color"),
    }
}

#[test]
fn unknown_color_is_fatal() {
    match compile_err(&["/a", "=magenta"]) {
        CompileError::UnknownColor { line } => assert_eq!(line, 2),
        _ => panic!("expected unknown color"),
    }
}

#[test]
fn unknown_color_fatal_even_without_pattern() {
    // The color name is checked before the pending-capture count.
    match compile_err(&["=nonsense"]) {
        CompileError::UnknownColor { line } => assert_eq!(line, 1),
        _ => panic!("expected unknown color"),
    }
}

#[test]
fn invalid_regex_is_fatal() {
    match compile_err(&["/foo(bar"]) {
        CompileError::InvalidRegex { line, message } => {
            assert_eq!(line, 1);
            assert!(!message.is_empty());
        }
        _ => panic!("expected invalid regex"),
    }
}

#[test]
fn comments_and_blanks_ignored() {
    let rs = compile_ok(&["# a comment", "", "/a", "=red", ""]);
    assert_eq!(rs.len(), 2);
}

#[test]
fn stray_style_and_suppress_are_skipped() {
    // Style and suppress lines with no pattern pending are warnings: the
    // lines are dropped and compilation continues.
    let rs = compile_ok(&["+b", "-", "~nonsense", "/a", "=red"]);
    assert_eq!(rs.len(), 2);
    assert!(matches!(rs.directive(0), Directive::Pattern(_)));
    assert!(matches!(rs.directive(1), Directive::Color(ColorName::Red)));
}

#[test]
fn bad_style_token_is_skipped() {
    let rs = compile_ok(&["/a", "+bold", "=red"]);
    assert_eq!(rs.len(), 2);
    assert!(matches!(rs.directive(1), Directive::Color(ColorName::Red)));
}

#[test]
fn style_tokens_expand_in_order() {
    let rs = compile_ok(&["/a", "+b", "+u", "=red", "/b", "+bu", "=green", "/c", "+ub", "=blue"]);
    assert_eq!(rs.len(), 12);
    assert!(matches!(rs.directive(1), Directive::Bold));
    assert!(matches!(rs.directive(2), Directive::Underline));
    assert!(matches!(rs.directive(5), Directive::Bold));
    assert!(matches!(rs.directive(6), Directive::Underline));
    assert!(matches!(rs.directive(9), Directive::Bold));
    assert!(matches!(rs.directive(10), Directive::Underline));
}

#[test]
fn suppress_closes_all_pending_captures() {
    let rs = compile_ok(&["/a(b)(c)", "-"]);
    assert_eq!(rs.len(), 2);
    assert!(matches!(rs.directive(1), Directive::Suppress));
}

#[test]
fn suppress_after_partial_colors() {
    // A color consumes one of the three captures; the suppress closes the
    // rest, so the rule compiles with the color kept before the suppress.
    let rs = compile_ok(&["/(a)(b)", "=red", "-"]);
    assert_eq!(rs.len(), 3);
    assert!(matches!(rs.directive(1), Directive::Color(ColorName::Red)));
    assert!(matches!(rs.directive(2), Directive::Suppress));
}

#[test]
fn suppress_line_ignores_trailing_text() {
    let rs = compile_ok(&["/a", "-anything"]);
    assert_eq!(rs.len(), 2);
    assert!(matches!(rs.directive(1), Directive::Suppress));
}

#[test]
fn empty_rule_file_compiles_empty() {
    let rs = compile_ok(&[]);
    assert_eq!(rs.len(), 0);
}
