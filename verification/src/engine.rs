//! The line-styling engine: finds the first pattern in a rule set that
//! matches a line, then applies that pattern's directive span in order until
//! a terminal directive fires.

use vstd::prelude::*;

use crate::directive::ColorName;
use crate::directive::DirSpec;
use crate::directive::Directive;
use crate::directive::RuleSet;
use crate::directive::dir_is_style;
use crate::directive::dir_is_terminal;
use crate::directive::ruleset_wf;
use crate::directive::span_closed;
use crate::pattern::regex_match;
use crate::text::str_eq;

verus! {

/// What the engine decides for one input line.
pub enum Outcome {
    /// Print the line in the accumulated style: bold and underline as
    /// gathered, and this foreground color, if any.
    Render { bold: bool, underline: bool, color: Option<ColorName>, text: String },
    /// Print nothing for this line.
    Suppressed,
    /// No pattern matched: print the line exactly as it came in.
    Passthrough { text: String },
}

/// The mathematical shape of an outcome.
pub enum OutcomeSpec {
    Render { bold: bool, underline: bool, color: Option<ColorName>, text: Seq<char> },
    Suppressed,
    Passthrough { text: Seq<char> },
}

impl View for Outcome {
    type V = OutcomeSpec;

    open spec fn view(&self) -> OutcomeSpec {
        match self {
            Outcome::Render { bold, underline, color, text } => OutcomeSpec::Render {
                bold: *bold,
                underline: *underline,
                color: *color,
                text: text@,
            },
            Outcome::Suppressed => OutcomeSpec::Suppressed,
            Outcome::Passthrough { text } => OutcomeSpec::Passthrough { text: text@ },
        }
    }
}

/// Whether this directive is a pattern whose regex matches the line.
pub open spec fn matches_line(d: DirSpec, line: Seq<char>) -> bool {
    match d {
        DirSpec::Pattern { pat } => regex_match(pat, line),
        _ => false,
    }
}

/// Walks the directive span that follows a matched pattern, from position
/// `j`, with `bold` and `underline` accumulated so far: styles accumulate,
/// and the first terminal directive decides the outcome. Running off the end
/// of the rules, or into another pattern, would mean the span never reached a
/// terminal directive; no compiled rule set contains such a span, and the
/// walk falls back to passing the line through.
pub open spec fn walk_span(
    rules: Seq<DirSpec>,
    line: Seq<char>,
    j: int,
    bold: bool,
    underline: bool,
) -> OutcomeSpec
    decreases rules.len() - j,
{
    if j < 0 || j >= rules.len() {
        OutcomeSpec::Passthrough { text: line }
    } else {
        match rules[j] {
            DirSpec::Bold => walk_span(rules, line, j + 1, true, underline),
            DirSpec::Underline => walk_span(rules, line, j + 1, bold, true),
            DirSpec::Suppress => OutcomeSpec::Suppressed,
            DirSpec::Color { color } => OutcomeSpec::Render {
                bold,
                underline,
                color: Some(color),
                text: line,
            },
            DirSpec::ColorDefault => OutcomeSpec::Render {
                bold,
                underline,
                color: None,
                text: line,
            },
            DirSpec::Pattern { pat } => OutcomeSpec::Passthrough { text: line },
        }
    }
}

/// Scans the rules from position `i` for the first pattern matching the
/// line; if one is found its span decides the outcome, and if none is the
/// line passes through unchanged.
pub open spec fn scan_from(rules: Seq<DirSpec>, line: Seq<char>, i: int) -> OutcomeSpec
    decreases rules.len() - i,
{
    if i < 0 || i >= rules.len() {
        OutcomeSpec::Passthrough { text: line }
    } else if matches_line(rules[i], line) {
        walk_span(rules, line, i + 1, false, false)
    } else {
        scan_from(rules, line, i + 1)
    }
}

/// What styling one line against a rule set yields: the outcome of the first
/// matching pattern's span, or passthrough.
pub open spec fn style_line_spec(rules: Seq<DirSpec>, line: Seq<char>) -> OutcomeSpec {
    scan_from(rules, line, 0)
}

/// Styles one input line against a compiled rule set.
///
/// The outcome is a pure function of the rule set and the line, so repeating
/// the call can never decide differently; lines carry no state into one
/// another.
pub fn style_line(rules: &RuleSet, line: &str) -> (r: Outcome)
    ensures
        r@ == style_line_spec(rules@, line@),
{
    let n = rules.dirs.len();
    let mut i: usize = 0;
    while i < n
        invariant
            i <= n,
            n == rules@.len(),
            n == rules.dirs.len(),
            style_line_spec(rules@, line@) == scan_from(rules@, line@, i as int),
        decreases n - i,
    {
        proof {
            assert(rules@[i as int] == rules.dirs@.map_values(|d: Directive| d@)[i as int]);
        }
        let matched: bool = match &rules.dirs[i] {
            Directive::Pattern(p) => p.is_match(line),
            _ => false,
        };
        if matched {
            let mut bold = false;
            let mut underline = false;
            let mut j: usize = i + 1;
            while j < n
                invariant
                    j <= n,
                    n == rules@.len(),
                    n == rules.dirs.len(),
                    style_line_spec(rules@, line@) == walk_span(
                        rules@,
                        line@,
                        j as int,
                        bold,
                        underline,
                    ),
                decreases n - j,
            {
                proof {
                    assert(rules@[j as int] == rules.dirs@.map_values(|d: Directive| d@)[
                        j as int
                    ]);
                }
                match &rules.dirs[j] {
                    Directive::Bold => {
                        bold = true;
                    },
                    Directive::Underline => {
                        underline = true;
                    },
                    Directive::Suppress => {
                        return Outcome::Suppressed;
                    },
                    Directive::Color(c) => {
                        return Outcome::Render {
                            bold,
                            underline,
                            color: Some(*c),
                            text: line.to_owned(),
                        };
                    },
                    Directive::ColorDefault => {
                        return Outcome::Render {
                            bold,
                            underline,
                            color: None,
                            text: line.to_owned(),
                        };
                    },
                    Directive::Pattern(_) => {
                        return Outcome::Passthrough { text: line.to_owned() };
                    },
                }
                j = j + 1;
            }
            return Outcome::Passthrough { text: line.to_owned() };
        }
        i = i + 1;
    }
    Outcome::Passthrough { text: line.to_owned() }
}

/// A scan that sees no matching pattern up to `m` reaches `m`; a match there
/// hands the outcome to that pattern's span.
proof fn lemma_scan_reaches(rules: Seq<DirSpec>, line: Seq<char>, i: int, m: int)
    requires
        0 <= i <= m < rules.len(),
        matches_line(rules[m], line),
        forall|k: int| i <= k < m ==> !matches_line(#[trigger] rules[k], line),
    ensures
        scan_from(rules, line, i) == walk_span(rules, line, m + 1, false, false),
    decreases m - i,
{
    if i < m {
        lemma_scan_reaches(rules, line, i + 1, m);
    }
}

/// A span walk that meets only style accumulators before a `Suppress`
/// suppresses the line, whatever styles it gathered.
proof fn lemma_walk_hits_suppress(
    rules: Seq<DirSpec>,
    line: Seq<char>,
    j: int,
    t: int,
    bold: bool,
    underline: bool,
)
    requires
        0 <= j <= t < rules.len(),
        rules[t] is Suppress,
        forall|k: int| j <= k < t ==> dir_is_style(#[trigger] rules[k]),
    ensures
        walk_span(rules, line, j, bold, underline) == OutcomeSpec::Suppressed,
    decreases t - j,
{
    if j < t {
        if rules[j] is Bold {
            lemma_walk_hits_suppress(rules, line, j + 1, t, true, underline);
        } else {
            lemma_walk_hits_suppress(rules, line, j + 1, t, bold, true);
        }
    }
}

/// A span walk within the prefix of a longer rule sequence cannot tell the
/// difference, as long as a terminal directive stands before the prefix ends.
proof fn lemma_walk_agrees(
    prefix: Seq<DirSpec>,
    all: Seq<DirSpec>,
    line: Seq<char>,
    j: int,
    t: int,
    bold: bool,
    underline: bool,
)
    requires
        0 <= j <= t < prefix.len(),
        prefix.len() <= all.len(),
        forall|k: int| 0 <= k < prefix.len() ==> prefix[k] == #[trigger] all[k],
        dir_is_terminal(prefix[t]),
        forall|k: int| j <= k < t ==> dir_is_style(#[trigger] prefix[k]),
    ensures
        walk_span(all, line, j, bold, underline) == walk_span(prefix, line, j, bold, underline),
    decreases t - j,
{
    assert(all[j] == prefix[j]);
    if j < t {
        if prefix[j] is Bold {
            lemma_walk_agrees(prefix, all, line, j + 1, t, true, underline);
        } else {
            lemma_walk_agrees(prefix, all, line, j + 1, t, bold, true);
        }
    }
}

/// The scan step of `lemma_first_match_wins`: while a matching pattern still
/// lies ahead within the well-formed prefix, appended directives stay out of
/// reach.
proof fn lemma_scan_agrees(prefix: Seq<DirSpec>, suffix: Seq<DirSpec>, line: Seq<char>, i: int)
    requires
        0 <= i <= prefix.len(),
        ruleset_wf(prefix),
        exists|m: int| i <= m < prefix.len() && matches_line(#[trigger] prefix[m], line),
    ensures
        scan_from(prefix + suffix, line, i) == scan_from(prefix, line, i),
    decreases prefix.len() - i,
{
    let all = prefix + suffix;
    let m = choose|m: int| i <= m < prefix.len() && matches_line(#[trigger] prefix[m], line);
    assert(all[i] == prefix[i]);
    if matches_line(prefix[i], line) {
        assert(prefix[i] is Pattern);
        assert(span_closed(prefix, i));
        let t = choose|t: int|
            i < t < prefix.len() && #[trigger] dir_is_terminal(prefix[t]) && (forall|k: int|
                i < k < t ==> dir_is_style(#[trigger] prefix[k]));
        lemma_walk_agrees(prefix, all, line, i + 1, t, false, false);
    } else {
        assert(m >= i + 1);
        lemma_scan_agrees(prefix, suffix, line, i + 1);
    }
}

/// First match wins: when some pattern of a well-formed rule sequence
/// matches the line, directives appended after that sequence can never
/// affect the line's outcome — the first matching pattern's span alone
/// decides it.
pub proof fn lemma_first_match_wins(prefix: Seq<DirSpec>, suffix: Seq<DirSpec>, line: Seq<char>)
    requires
        ruleset_wf(prefix),
        exists|m: int| 0 <= m < prefix.len() && matches_line(#[trigger] prefix[m], line),
    ensures
        style_line_spec(prefix + suffix, line) == style_line_spec(prefix, line),
{
    lemma_scan_agrees(prefix, suffix, line, 0);
}

/// Suppression: when the first pattern matching the line heads a span whose
/// first terminal directive is `Suppress`, the line's outcome is
/// `Suppressed` — it contributes no output at all.
pub proof fn lemma_suppress(rules: Seq<DirSpec>, line: Seq<char>, m: int, t: int)
    requires
        0 <= m < rules.len(),
        matches_line(rules[m], line),
        forall|k: int| 0 <= k < m ==> !matches_line(#[trigger] rules[k], line),
        m < t < rules.len(),
        rules[t] is Suppress,
        forall|k: int| m < k < t ==> dir_is_style(#[trigger] rules[k]),
    ensures
        style_line_spec(rules, line) == OutcomeSpec::Suppressed,
{
    lemma_scan_reaches(rules, line, 0, m);
    lemma_walk_hits_suppress(rules, line, m + 1, t, false, false);
}

/// A span walk that meets only style accumulators before a terminal
/// directive always ends at that terminal, so it renders or suppresses.
proof fn lemma_walk_terminates(
    rules: Seq<DirSpec>,
    line: Seq<char>,
    j: int,
    t: int,
    bold: bool,
    underline: bool,
)
    requires
        0 <= j <= t < rules.len(),
        dir_is_terminal(rules[t]),
        forall|k: int| j <= k < t ==> dir_is_style(#[trigger] rules[k]),
    ensures
        !(walk_span(rules, line, j, bold, underline) is Passthrough),
    decreases t - j,
{
    if j < t {
        if rules[j] is Bold {
            lemma_walk_terminates(rules, line, j + 1, t, true, underline);
        } else {
            lemma_walk_terminates(rules, line, j + 1, t, bold, true);
        }
    }
}

/// The scan step of `lemma_matched_line_not_passed_through`.
proof fn lemma_scan_match_decides(rules: Seq<DirSpec>, line: Seq<char>, i: int)
    requires
        ruleset_wf(rules),
        0 <= i <= rules.len(),
        exists|m: int| i <= m < rules.len() && matches_line(#[trigger] rules[m], line),
    ensures
        !(scan_from(rules, line, i) is Passthrough),
    decreases rules.len() - i,
{
    let m = choose|m: int| i <= m < rules.len() && matches_line(#[trigger] rules[m], line);
    if matches_line(rules[i], line) {
        assert(rules[i] is Pattern);
        assert(span_closed(rules, i));
        let t = choose|t: int|
            i < t < rules.len() && #[trigger] dir_is_terminal(rules[t]) && (forall|k: int|
                i < k < t ==> dir_is_style(#[trigger] rules[k]));
        lemma_walk_terminates(rules, line, i + 1, t, false, false);
    } else {
        assert(m >= i + 1);
        lemma_scan_match_decides(rules, line, i + 1);
    }
}

/// Under a well-formed rule set a matched line is never passed through: a
/// passthrough outcome can only mean that no pattern matched the line.
pub proof fn lemma_matched_line_not_passed_through(rules: Seq<DirSpec>, line: Seq<char>)
    requires
        ruleset_wf(rules),
        exists|m: int| 0 <= m < rules.len() && matches_line(#[trigger] rules[m], line),
    ensures
        !(style_line_spec(rules, line) is Passthrough),
{
    lemma_scan_match_decides(rules, line, 0);
}

/// Passthrough: a line no pattern matches keeps exactly its own text.
pub proof fn lemma_passthrough(rules: Seq<DirSpec>, line: Seq<char>)
    requires
        forall|k: int| 0 <= k < rules.len() ==> !matches_line(#[trigger] rules[k], line),
    ensures
        style_line_spec(rules, line) == (OutcomeSpec::Passthrough { text: line }),
{
    lemma_scan_no_match(rules, line, 0);
}

/// The scan step of `lemma_passthrough`.
proof fn lemma_scan_no_match(rules: Seq<DirSpec>, line: Seq<char>, i: int)
    requires
        0 <= i <= rules.len(),
        forall|k: int| i <= k < rules.len() ==> !matches_line(#[trigger] rules[k], line),
    ensures
        scan_from(rules, line, i) == (OutcomeSpec::Passthrough { text: line }),
    decreases rules.len() - i,
{
    if i < rules.len() {
        lemma_scan_no_match(rules, line, i + 1);
    }
}

/// Compares two outcomes for equality of their views.
pub fn outcome_eq(a: &Outcome, b: &Outcome) -> (r: bool)
    ensures
        r == (a@ == b@),
{
    match (a, b) {
        (
            Outcome::Render { bold: b1, underline: u1, color: c1, text: t1 },
            Outcome::Render { bold: b2, underline: u2, color: c2, text: t2 },
        ) => {
            let colors_same: bool = match (c1, c2) {
                (Some(x), Some(y)) => *x == *y,
                (None, None) => true,
                _ => false,
            };
            *b1 == *b2 && *u1 == *u2 && colors_same && str_eq(t1.as_str(), t2.as_str())
        },
        (Outcome::Suppressed, Outcome::Suppressed) => true,
        (Outcome::Passthrough { text: t1 }, Outcome::Passthrough { text: t2 }) => str_eq(
            t1.as_str(),
            t2.as_str(),
        ),
        _ => false,
    }
}

} // verus!
