//! The rule compiler: classifies each line of a rule file by its leading
//! sigil, emits the corresponding directives, and enforces capture-count
//! balance, so that every compiled rule can reach a terminal action.

use vstd::prelude::*;

use crate::directive::ColorName;
use crate::directive::DirSpec;
use crate::directive::Directive;
use crate::directive::RuleSet;
use crate::directive::dir_is_style;
use crate::directive::dir_is_terminal;
use crate::directive::ruleset_wf;
use crate::directive::span_closed;
use crate::pattern::Pattern;
use crate::pattern::regex_ncaps;
use crate::pattern::regex_ok;
use crate::text::str_eq;

verus! {

/// How a rule-file line is read, decided by its first character.
pub enum LineClass {
    /// Empty line or comment: ignored.
    Skip,
    /// `/regex`: declares a pattern.
    PatternDecl { pat: Seq<char> },
    /// `=color`: consumes one pending capture.
    ColorDecl { rest: Seq<char> },
    /// `+b`, `+u`, `+bu`, `+ub`: accumulates styles.
    StyleDecl { rest: Seq<char> },
    /// `-`: suppresses lines the current rule matches.
    SuppressDecl,
    /// Any other first character: skipped with a warning.
    Unknown,
}

/// Classifies one line of a rule file.
pub open spec fn classify(line: Seq<char>) -> LineClass {
    if line.len() == 0 {
        LineClass::Skip
    } else if line[0] == '#' {
        LineClass::Skip
    } else if line[0] == '/' {
        LineClass::PatternDecl { pat: line.subrange(1, line.len() as int) }
    } else if line[0] == '+' {
        LineClass::StyleDecl { rest: line.subrange(1, line.len() as int) }
    } else if line[0] == '-' {
        LineClass::SuppressDecl
    } else if line[0] == '=' {
        LineClass::ColorDecl { rest: line.subrange(1, line.len() as int) }
    } else {
        LineClass::Unknown
    }
}

/// The reading of the text after a `=` sigil.
pub enum ColorTok {
    Named { color: ColorName },
    DefaultTok,
    Bad,
}

/// Reads a color token: one of the eight fixed color names, or `default`.
pub open spec fn color_token(rest: Seq<char>) -> ColorTok {
    if rest == "black"@ {
        ColorTok::Named { color: ColorName::Black }
    } else if rest == "red"@ {
        ColorTok::Named { color: ColorName::Red }
    } else if rest == "green"@ {
        ColorTok::Named { color: ColorName::Green }
    } else if rest == "yellow"@ {
        ColorTok::Named { color: ColorName::Yellow }
    } else if rest == "blue"@ {
        ColorTok::Named { color: ColorName::Blue }
    } else if rest == "purple"@ {
        ColorTok::Named { color: ColorName::Purple }
    } else if rest == "cyan"@ {
        ColorTok::Named { color: ColorName::Cyan }
    } else if rest == "white"@ {
        ColorTok::Named { color: ColorName::White }
    } else if rest == "default"@ {
        ColorTok::DefaultTok
    } else {
        ColorTok::Bad
    }
}

/// The reading of the text after a `+` sigil.
pub enum StyleTok {
    JustBold,
    JustUnderline,
    BoldUnderline,
    Bad,
}

/// Reads a style token: `b`, `u`, or both in either order.
pub open spec fn style_token(rest: Seq<char>) -> StyleTok {
    if rest == "b"@ {
        StyleTok::JustBold
    } else if rest == "u"@ {
        StyleTok::JustUnderline
    } else if rest == "bu"@ || rest == "ub"@ {
        StyleTok::BoldUnderline
    } else {
        StyleTok::Bad
    }
}

/// The fatal ways compilation can fail, with 1-based line numbers.
pub enum CompileErrorSpec {
    /// The pattern text was rejected by the regex engine.
    InvalidRegex { line: nat },
    /// A pattern began while a prior pattern still had pending captures.
    PatternWhilePending { line: nat },
    /// The text after `=` named no known color.
    UnknownColor { line: nat },
    /// A color arrived with no pending capture to consume.
    ExtraColor { line: nat },
    /// The file ended with captures still pending.
    MissingColors { expected: nat },
}

/// The fatal ways compilation can fail. `InvalidRegex` carries the regex
/// engine's own message; line numbers are 1-based.
pub enum CompileError {
    InvalidRegex { line: usize, message: String },
    PatternWhilePending { line: usize },
    UnknownColor { line: usize },
    ExtraColor { line: usize },
    MissingColors { expected: usize },
}

impl View for CompileError {
    type V = CompileErrorSpec;

    open spec fn view(&self) -> CompileErrorSpec {
        match self {
            CompileError::InvalidRegex { line, message } => CompileErrorSpec::InvalidRegex {
                line: *line as nat,
            },
            CompileError::PatternWhilePending { line } => CompileErrorSpec::PatternWhilePending {
                line: *line as nat,
            },
            CompileError::UnknownColor { line } => CompileErrorSpec::UnknownColor {
                line: *line as nat,
            },
            CompileError::ExtraColor { line } => CompileErrorSpec::ExtraColor {
                line: *line as nat,
            },
            CompileError::MissingColors { expected } => CompileErrorSpec::MissingColors {
                expected: *expected as nat,
            },
        }
    }
}

/// What compilation does from line `i` on, having already emitted `acc` with
/// `pending` captures outstanding: the remaining lines either extend `acc` to
/// the final directive sequence or run into a fatal error.
pub open spec fn compile_from(
    lines: Seq<Seq<char>>,
    i: int,
    acc: Seq<DirSpec>,
    pending: nat,
) -> Result<Seq<DirSpec>, CompileErrorSpec>
    decreases lines.len() - i,
{
    if i < 0 || i >= lines.len() {
        if pending > 0 {
            Err(CompileErrorSpec::MissingColors { expected: pending })
        } else {
            Ok(acc)
        }
    } else {
        let ln = (i + 1) as nat;
        match classify(lines[i]) {
            LineClass::Skip => compile_from(lines, i + 1, acc, pending),
            LineClass::Unknown => compile_from(lines, i + 1, acc, pending),
            LineClass::PatternDecl { pat } => {
                if !regex_ok(pat) {
                    Err(CompileErrorSpec::InvalidRegex { line: ln })
                } else if pending > 0 {
                    Err(CompileErrorSpec::PatternWhilePending { line: ln })
                } else {
                    compile_from(lines, i + 1, acc.push(DirSpec::Pattern { pat }), regex_ncaps(pat))
                }
            },
            LineClass::ColorDecl { rest } => match color_token(rest) {
                ColorTok::Bad => Err(CompileErrorSpec::UnknownColor { line: ln }),
                ColorTok::Named { color } => if pending == 0 {
                    Err(CompileErrorSpec::ExtraColor { line: ln })
                } else {
                    compile_from(
                        lines,
                        i + 1,
                        acc.push(DirSpec::Color { color }),
                        (pending - 1) as nat,
                    )
                },
                ColorTok::DefaultTok => if pending == 0 {
                    Err(CompileErrorSpec::ExtraColor { line: ln })
                } else {
                    compile_from(lines, i + 1, acc.push(DirSpec::ColorDefault), (pending - 1) as nat)
                },
            },
            LineClass::StyleDecl { rest } => if pending == 0 {
                compile_from(lines, i + 1, acc, pending)
            } else {
                match style_token(rest) {
                    StyleTok::JustBold => compile_from(lines, i + 1, acc.push(DirSpec::Bold), pending),
                    StyleTok::JustUnderline => compile_from(
                        lines,
                        i + 1,
                        acc.push(DirSpec::Underline),
                        pending,
                    ),
                    StyleTok::BoldUnderline => compile_from(
                        lines,
                        i + 1,
                        acc.push(DirSpec::Bold).push(DirSpec::Underline),
                        pending,
                    ),
                    StyleTok::Bad => compile_from(lines, i + 1, acc, pending),
                }
            },
            LineClass::SuppressDecl => if pending == 0 {
                compile_from(lines, i + 1, acc, pending)
            } else {
                compile_from(lines, i + 1, acc.push(DirSpec::Suppress), 0)
            },
        }
    }
}

/// The views of a sequence of owned rule lines.
pub open spec fn rule_lines_view(lines: Seq<String>) -> Seq<Seq<char>> {
    lines.map_values(|s: String| s@)
}

/// What compiling a whole rule file yields.
pub open spec fn compile_spec(lines: Seq<Seq<char>>) -> Result<Seq<DirSpec>, CompileErrorSpec> {
    compile_from(lines, 0, Seq::empty(), 0)
}

/// The directives end in an open rule: a trailing pattern followed only by
/// style accumulators, everything before it well formed.
pub open spec fn open_span(rules: Seq<DirSpec>) -> bool {
    exists|p: int|
        0 <= p < rules.len() && (#[trigger] rules[p]) is Pattern && ruleset_wf(rules.take(p))
            && (forall|k: int| p < k < rules.len() ==> dir_is_style(#[trigger] rules[k]))
}

/// The compiler's running invariant: once no captures are pending the emitted
/// directives are well formed; while captures are pending, at worst the
/// trailing rule still waits for its first terminal directive.
pub open spec fn balance_inv(rules: Seq<DirSpec>, pending: nat) -> bool {
    if pending == 0 {
        ruleset_wf(rules)
    } else {
        ruleset_wf(rules) || open_span(rules)
    }
}

/// Appending anything but a pattern keeps a well-formed sequence well formed.
proof fn lemma_wf_push_non_pattern(rules: Seq<DirSpec>, d: DirSpec)
    requires
        ruleset_wf(rules),
        !(d is Pattern),
    ensures
        ruleset_wf(rules.push(d)),
{
    let r2 = rules.push(d);
    assert forall|i: int| 0 <= i < r2.len() && (#[trigger] r2[i]) is Pattern implies span_closed(
        r2,
        i,
    ) by {
        assert(r2[rules.len() as int] == d);
        assert(i < rules.len());
        assert(rules[i] == r2[i]);
        let t = choose|t: int|
            i < t < rules.len() && #[trigger] dir_is_terminal(rules[t]) && (forall|k: int|
                i < k < t ==> dir_is_style(#[trigger] rules[k]));
        assert(r2[t] == rules[t]);
        assert forall|k: int| i < k < t implies dir_is_style(#[trigger] r2[k]) by {
            assert(r2[k] == rules[k]);
        }
        assert(i < t < r2.len() && dir_is_terminal(r2[t]));
    }
}

/// Appending a pattern to a well-formed sequence opens a new rule span.
proof fn lemma_push_pattern_opens(rules: Seq<DirSpec>, pat: Seq<char>)
    requires
        ruleset_wf(rules),
    ensures
        open_span(rules.push(DirSpec::Pattern { pat })),
{
    let r2 = rules.push(DirSpec::Pattern { pat });
    let p = rules.len() as int;
    assert(r2[p] is Pattern);
    assert(r2.take(p) =~= rules);
    assert(forall|k: int| p < k < r2.len() ==> dir_is_style(#[trigger] r2[k]));
}

/// Appending a style accumulator keeps an open rule span open.
proof fn lemma_push_style_keeps_open(rules: Seq<DirSpec>, d: DirSpec)
    requires
        open_span(rules),
        dir_is_style(d),
    ensures
        open_span(rules.push(d)),
{
    let r2 = rules.push(d);
    let p = choose|p: int|
        0 <= p < rules.len() && (#[trigger] rules[p]) is Pattern && ruleset_wf(rules.take(p)) && (
        forall|k: int| p < k < rules.len() ==> dir_is_style(#[trigger] rules[k]));
    assert(r2[p] == rules[p]);
    assert(r2.take(p) =~= rules.take(p));
    assert forall|k: int| p < k < r2.len() implies dir_is_style(#[trigger] r2[k]) by {
        if k < rules.len() {
            assert(r2[k] == rules[k]);
        } else {
            assert(r2[k] == d);
        }
    }
}

/// Appending a terminal directive closes an open rule span: the whole
/// sequence becomes well formed.
proof fn lemma_push_terminal_closes(rules: Seq<DirSpec>, d: DirSpec)
    requires
        ruleset_wf(rules) || open_span(rules),
        dir_is_terminal(d),
    ensures
        ruleset_wf(rules.push(d)),
{
    if ruleset_wf(rules) {
        lemma_wf_push_non_pattern(rules, d);
    } else {
        let r2 = rules.push(d);
        let p = choose|p: int|
            0 <= p < rules.len() && (#[trigger] rules[p]) is Pattern && ruleset_wf(rules.take(p))
                && (forall|k: int| p < k < rules.len() ==> dir_is_style(#[trigger] rules[k]));
        let pre = rules.take(p);
        assert forall|i: int| 0 <= i < r2.len() && (#[trigger] r2[i]) is Pattern implies
            span_closed(r2, i) by {
            if i < p {
                assert(pre[i] == r2[i]);
                let t = choose|t: int|
                    i < t < pre.len() && #[trigger] dir_is_terminal(pre[t]) && (forall|k: int|
                        i < k < t ==> dir_is_style(#[trigger] pre[k]));
                assert(r2[t] == pre[t]);
                assert forall|k: int| i < k < t implies dir_is_style(#[trigger] r2[k]) by {
                    assert(r2[k] == pre[k]);
                }
                assert(i < t < r2.len() && dir_is_terminal(r2[t]));
            } else if i == p {
                let t = rules.len() as int;
                assert(r2[t] == d);
                assert forall|k: int| i < k < t implies dir_is_style(#[trigger] r2[k]) by {
                    assert(r2[k] == rules[k]);
                }
                assert(i < t < r2.len() && dir_is_terminal(r2[t]));
            } else {
                assert(i < r2.len() - 1 ==> r2[i] == rules[i] && dir_is_style(rules[i]));
                assert(i == r2.len() - 1 ==> r2[i] == d);
                assert(false);
            }
        }
    }
}

/// A line that declares a color: sigil `=` with a known token after it.
pub open spec fn is_color_line(line: Seq<char>) -> bool {
    classify(line) matches LineClass::ColorDecl { rest } && !(color_token(rest) is Bad)
}

/// A line that declares styles: sigil `+` with a known token after it.
pub open spec fn is_style_line(line: Seq<char>) -> bool {
    classify(line) matches LineClass::StyleDecl { rest } && !(style_token(rest) is Bad)
}

/// A line that declares a pattern the regex engine accepts.
pub open spec fn is_pattern_line_ok(line: Seq<char>) -> bool {
    classify(line) matches LineClass::PatternDecl { pat } && regex_ok(pat)
}

/// How many color lines stand at positions `i` up to `k`.
pub open spec fn color_count(lines: Seq<Seq<char>>, i: int, k: int) -> nat
    decreases k - i,
{
    if i >= k {
        0
    } else {
        (if is_color_line(lines[i]) {
            1nat
        } else {
            0nat
        }) + color_count(lines, i + 1, k)
    }
}

/// The directives that the color and style lines at positions `i` up to `k`
/// emit, in order.
pub open spec fn body_dirs(lines: Seq<Seq<char>>, i: int, k: int) -> Seq<DirSpec>
    decreases k - i,
{
    if i >= k {
        Seq::empty()
    } else {
        let tail = body_dirs(lines, i + 1, k);
        match classify(lines[i]) {
            LineClass::ColorDecl { rest } => match color_token(rest) {
                ColorTok::Named { color } => seq![DirSpec::Color { color }] + tail,
                ColorTok::DefaultTok => seq![DirSpec::ColorDefault] + tail,
                ColorTok::Bad => tail,
            },
            LineClass::StyleDecl { rest } => match style_token(rest) {
                StyleTok::JustBold => seq![DirSpec::Bold] + tail,
                StyleTok::JustUnderline => seq![DirSpec::Underline] + tail,
                StyleTok::BoldUnderline => seq![DirSpec::Bold, DirSpec::Underline] + tail,
                StyleTok::Bad => tail,
            },
            _ => tail,
        }
    }
}

/// The inductive step behind `lemma_capture_balance_valid`: color and style
/// lines, with as many captures pending as color lines remain (and styles
/// never standing after the last color), compile to exactly their directives.
proof fn lemma_body_compiles(lines: Seq<Seq<char>>, i: int, acc: Seq<DirSpec>)
    requires
        0 <= i <= lines.len(),
        forall|j: int|
            i <= j < lines.len() ==> is_color_line(#[trigger] lines[j]) || (is_style_line(lines[j])
                && color_count(lines, j, lines.len() as int) > 0),
    ensures
        compile_from(lines, i, acc, color_count(lines, i, lines.len() as int)) == Ok::<
            Seq<DirSpec>,
            CompileErrorSpec,
        >(acc + body_dirs(lines, i, lines.len() as int)),
    decreases lines.len() - i,
{
    let len = lines.len() as int;
    if i >= len {
        assert(acc + body_dirs(lines, i, len) =~= acc);
    } else if is_color_line(lines[i]) {
        let rest = classify(lines[i])->ColorDecl_rest;
        match color_token(rest) {
            ColorTok::Named { color } => {
                lemma_body_compiles(lines, i + 1, acc.push(DirSpec::Color { color }));
                assert(acc.push(DirSpec::Color { color }) + body_dirs(lines, i + 1, len) =~= acc
                    + body_dirs(lines, i, len));
            },
            ColorTok::DefaultTok => {
                lemma_body_compiles(lines, i + 1, acc.push(DirSpec::ColorDefault));
                assert(acc.push(DirSpec::ColorDefault) + body_dirs(lines, i + 1, len) =~= acc
                    + body_dirs(lines, i, len));
            },
            ColorTok::Bad => {
                assert(false);
            },
        }
    } else {
        let rest = classify(lines[i])->StyleDecl_rest;
        match style_token(rest) {
            StyleTok::JustBold => {
                lemma_body_compiles(lines, i + 1, acc.push(DirSpec::Bold));
                assert(acc.push(DirSpec::Bold) + body_dirs(lines, i + 1, len) =~= acc + body_dirs(
                    lines,
                    i,
                    len,
                ));
            },
            StyleTok::JustUnderline => {
                lemma_body_compiles(lines, i + 1, acc.push(DirSpec::Underline));
                assert(acc.push(DirSpec::Underline) + body_dirs(lines, i + 1, len) =~= acc
                    + body_dirs(lines, i, len));
            },
            StyleTok::BoldUnderline => {
                lemma_body_compiles(lines, i + 1, acc.push(DirSpec::Bold).push(DirSpec::Underline));
                assert(acc.push(DirSpec::Bold).push(DirSpec::Underline) + body_dirs(lines, i + 1, len)
                    =~= acc + body_dirs(lines, i, len));
            },
            StyleTok::Bad => {
                assert(false);
            },
        }
    }
}

/// Capture balance, the valid side: a pattern line followed by color and
/// style lines, with exactly as many colors as the pattern declares captures
/// (and styles only while colors are still to come), compiles successfully,
/// to exactly that pattern followed by the supplied directives in order.
pub proof fn lemma_capture_balance_valid(lines: Seq<Seq<char>>, pat: Seq<char>)
    requires
        lines.len() >= 1,
        classify(lines[0]) == (LineClass::PatternDecl { pat }),
        regex_ok(pat),
        regex_ncaps(pat) == color_count(lines, 1, lines.len() as int),
        forall|j: int|
            1 <= j < lines.len() ==> is_color_line(#[trigger] lines[j]) || (is_style_line(lines[j])
                && color_count(lines, j, lines.len() as int) > 0),
    ensures
        compile_spec(lines) == Ok::<Seq<DirSpec>, CompileErrorSpec>(
            seq![DirSpec::Pattern { pat }] + body_dirs(lines, 1, lines.len() as int),
        ),
{
    let first = seq![DirSpec::Pattern { pat }];
    assert(Seq::<DirSpec>::empty().push(DirSpec::Pattern { pat }) =~= first);
    lemma_body_compiles(lines, 1, first);
}

/// The inductive step behind `lemma_capture_balance_suppress`: color and
/// style lines with captures to spare, closed by a final suppress line,
/// compile to their directives with a `Suppress` at the end.
proof fn lemma_body_then_suppress(
    lines: Seq<Seq<char>>,
    i: int,
    k: int,
    acc: Seq<DirSpec>,
    pending: nat,
)
    requires
        0 <= i <= k < lines.len(),
        k == lines.len() - 1,
        pending > color_count(lines, i, k),
        classify(lines[k]) is SuppressDecl,
        forall|j: int| i <= j < k ==> is_color_line(#[trigger] lines[j]) || is_style_line(lines[j]),
    ensures
        compile_from(lines, i, acc, pending) == Ok::<Seq<DirSpec>, CompileErrorSpec>(
            acc + body_dirs(lines, i, k) + seq![DirSpec::Suppress],
        ),
    decreases k - i,
{
    if i == k {
        assert(compile_from(lines, k + 1, acc.push(DirSpec::Suppress), 0) == Ok::<
            Seq<DirSpec>,
            CompileErrorSpec,
        >(acc.push(DirSpec::Suppress)));
        assert(acc.push(DirSpec::Suppress) =~= acc + body_dirs(lines, i, k) + seq![
            DirSpec::Suppress,
        ]);
    } else if is_color_line(lines[i]) {
        let rest = classify(lines[i])->ColorDecl_rest;
        match color_token(rest) {
            ColorTok::Named { color } => {
                lemma_body_then_suppress(
                    lines,
                    i + 1,
                    k,
                    acc.push(DirSpec::Color { color }),
                    (pending - 1) as nat,
                );
                assert(acc.push(DirSpec::Color { color }) + body_dirs(lines, i + 1, k) + seq![
                    DirSpec::Suppress,
                ] =~= acc + body_dirs(lines, i, k) + seq![DirSpec::Suppress]);
            },
            ColorTok::DefaultTok => {
                lemma_body_then_suppress(
                    lines,
                    i + 1,
                    k,
                    acc.push(DirSpec::ColorDefault),
                    (pending - 1) as nat,
                );
                assert(acc.push(DirSpec::ColorDefault) + body_dirs(lines, i + 1, k) + seq![
                    DirSpec::Suppress,
                ] =~= acc + body_dirs(lines, i, k) + seq![DirSpec::Suppress]);
            },
            ColorTok::Bad => {
                assert(false);
            },
        }
    } else {
        let rest = classify(lines[i])->StyleDecl_rest;
        match style_token(rest) {
            StyleTok::JustBold => {
                lemma_body_then_suppress(lines, i + 1, k, acc.push(DirSpec::Bold), pending);
                assert(acc.push(DirSpec::Bold) + body_dirs(lines, i + 1, k) + seq![
                    DirSpec::Suppress,
                ] =~= acc + body_dirs(lines, i, k) + seq![DirSpec::Suppress]);
            },
            StyleTok::JustUnderline => {
                lemma_body_then_suppress(lines, i + 1, k, acc.push(DirSpec::Underline), pending);
                assert(acc.push(DirSpec::Underline) + body_dirs(lines, i + 1, k) + seq![
                    DirSpec::Suppress,
                ] =~= acc + body_dirs(lines, i, k) + seq![DirSpec::Suppress]);
            },
            StyleTok::BoldUnderline => {
                lemma_body_then_suppress(
                    lines,
                    i + 1,
                    k,
                    acc.push(DirSpec::Bold).push(DirSpec::Underline),
                    pending,
                );
                assert(acc.push(DirSpec::Bold).push(DirSpec::Underline) + body_dirs(lines, i + 1, k)
                    + seq![DirSpec::Suppress] =~= acc + body_dirs(lines, i, k) + seq![
                    DirSpec::Suppress,
                ]);
            },
            StyleTok::Bad => {
                assert(false);
            },
        }
    }
}

/// Capture balance, the suppress alternative: a pattern whose captures are
/// not yet exhausted may be closed by a final suppress line instead of its
/// remaining colors; compilation succeeds with a `Suppress` ending the rule.
pub proof fn lemma_capture_balance_suppress(lines: Seq<Seq<char>>, pat: Seq<char>)
    requires
        lines.len() >= 2,
        classify(lines[0]) == (LineClass::PatternDecl { pat }),
        regex_ok(pat),
        classify(lines[lines.len() - 1]) is SuppressDecl,
        color_count(lines, 1, lines.len() - 1) < regex_ncaps(pat),
        forall|j: int|
            1 <= j < lines.len() - 1 ==> is_color_line(#[trigger] lines[j]) || is_style_line(
                lines[j],
            ),
    ensures
        compile_spec(lines) == Ok::<Seq<DirSpec>, CompileErrorSpec>(
            seq![DirSpec::Pattern { pat }] + body_dirs(lines, 1, lines.len() - 1) + seq![
                DirSpec::Suppress,
            ],
        ),
{
    lemma_body_then_suppress(
        lines,
        1,
        lines.len() - 1,
        seq![DirSpec::Pattern { pat }],
        regex_ncaps(pat),
    );
}

/// The inductive step behind the two invalid-balance laws: color and style
/// lines alone, while more captures are pending than color lines remain,
/// leave captures pending to the end.
proof fn lemma_body_leaves_pending(lines: Seq<Seq<char>>, i: int, k: int, acc: Seq<DirSpec>, pending: nat)
    requires
        0 <= i <= k <= lines.len(),
        pending > color_count(lines, i, k),
        forall|j: int| i <= j < k ==> is_color_line(#[trigger] lines[j]) || is_style_line(lines[j]),
    ensures
        k == lines.len() ==> compile_from(lines, i, acc, pending) == Err::<
            Seq<DirSpec>,
            CompileErrorSpec,
        >(
            CompileErrorSpec::MissingColors {
                expected: (pending - color_count(lines, i, k)) as nat,
            },
        ),
        k < lines.len() && is_pattern_line_ok(lines[k]) ==> compile_from(lines, i, acc, pending)
            == Err::<Seq<DirSpec>, CompileErrorSpec>(
            CompileErrorSpec::PatternWhilePending { line: (k + 1) as nat },
        ),
    decreases k - i,
{
    if i >= k {
    } else if is_color_line(lines[i]) {
        let rest = classify(lines[i])->ColorDecl_rest;
        match color_token(rest) {
            ColorTok::Named { color } => {
                lemma_body_leaves_pending(
                    lines,
                    i + 1,
                    k,
                    acc.push(DirSpec::Color { color }),
                    (pending - 1) as nat,
                );
            },
            ColorTok::DefaultTok => {
                lemma_body_leaves_pending(
                    lines,
                    i + 1,
                    k,
                    acc.push(DirSpec::ColorDefault),
                    (pending - 1) as nat,
                );
            },
            ColorTok::Bad => {
                assert(false);
            },
        }
    } else {
        let rest = classify(lines[i])->StyleDecl_rest;
        match style_token(rest) {
            StyleTok::JustBold => {
                lemma_body_leaves_pending(lines, i + 1, k, acc.push(DirSpec::Bold), pending);
            },
            StyleTok::JustUnderline => {
                lemma_body_leaves_pending(lines, i + 1, k, acc.push(DirSpec::Underline), pending);
            },
            StyleTok::BoldUnderline => {
                lemma_body_leaves_pending(
                    lines,
                    i + 1,
                    k,
                    acc.push(DirSpec::Bold).push(DirSpec::Underline),
                    pending,
                );
            },
            StyleTok::Bad => {
                assert(false);
            },
        }
    }
}

/// Capture balance, the invalid side at end of file: a pattern followed by
/// fewer color lines than it declares captures fails compilation, reporting
/// exactly how many more colors were expected — never a silently truncated
/// rule.
pub proof fn lemma_capture_balance_missing(lines: Seq<Seq<char>>, pat: Seq<char>)
    requires
        lines.len() >= 1,
        classify(lines[0]) == (LineClass::PatternDecl { pat }),
        regex_ok(pat),
        color_count(lines, 1, lines.len() as int) < regex_ncaps(pat),
        forall|j: int|
            1 <= j < lines.len() ==> is_color_line(#[trigger] lines[j]) || is_style_line(lines[j]),
    ensures
        compile_spec(lines) == Err::<Seq<DirSpec>, CompileErrorSpec>(
            CompileErrorSpec::MissingColors {
                expected: (regex_ncaps(pat) - color_count(lines, 1, lines.len() as int)) as nat,
            },
        ),
{
    lemma_body_leaves_pending(
        lines,
        1,
        lines.len() as int,
        seq![DirSpec::Pattern { pat }],
        regex_ncaps(pat),
    );
}

/// Capture balance, the invalid side at a second pattern: a pattern whose
/// captures are not yet all consumed when another pattern line begins fails
/// compilation at that line.
pub proof fn lemma_second_pattern_rejected(lines: Seq<Seq<char>>, pat: Seq<char>, m: int)
    requires
        lines.len() >= 1,
        classify(lines[0]) == (LineClass::PatternDecl { pat }),
        regex_ok(pat),
        1 <= m < lines.len(),
        is_pattern_line_ok(lines[m]),
        color_count(lines, 1, m) < regex_ncaps(pat),
        forall|j: int| 1 <= j < m ==> is_color_line(#[trigger] lines[j]) || is_style_line(lines[j]),
    ensures
        compile_spec(lines) == Err::<Seq<DirSpec>, CompileErrorSpec>(
            CompileErrorSpec::PatternWhilePending { line: (m + 1) as nat },
        ),
{
    lemma_body_leaves_pending(lines, 1, m, seq![DirSpec::Pattern { pat }], regex_ncaps(pat));
}

/// The executable form of a classified line, borrowing the text after the
/// sigil.
enum LineKind<'a> {
    Skip,
    PatternDecl { pat: &'a str },
    ColorDecl { rest: &'a str },
    StyleDecl { rest: &'a str },
    SuppressDecl,
    Unknown,
}

impl<'a> View for LineKind<'a> {
    type V = LineClass;

    closed spec fn view(&self) -> LineClass {
        match self {
            LineKind::Skip => LineClass::Skip,
            LineKind::PatternDecl { pat } => LineClass::PatternDecl { pat: pat@ },
            LineKind::ColorDecl { rest } => LineClass::ColorDecl { rest: rest@ },
            LineKind::StyleDecl { rest } => LineClass::StyleDecl { rest: rest@ },
            LineKind::SuppressDecl => LineClass::SuppressDecl,
            LineKind::Unknown => LineClass::Unknown,
        }
    }
}

/// Classifies one line by its first character.
fn classify_line(line: &str) -> (k: LineKind)
    ensures
        k@ == classify(line@),
{
    let n = line.unicode_len();
    if n == 0 {
        return LineKind::Skip;
    }
    let c0 = line.get_char(0);
    if c0 == '#' {
        LineKind::Skip
    } else if c0 == '/' {
        LineKind::PatternDecl { pat: line.substring_char(1, n) }
    } else if c0 == '+' {
        LineKind::StyleDecl { rest: line.substring_char(1, n) }
    } else if c0 == '-' {
        LineKind::SuppressDecl
    } else if c0 == '=' {
        LineKind::ColorDecl { rest: line.substring_char(1, n) }
    } else {
        LineKind::Unknown
    }
}

/// The executable form of a read color token.
enum ColorParse {
    Named { color: ColorName },
    DefaultTok,
    Bad,
}

impl View for ColorParse {
    type V = ColorTok;

    closed spec fn view(&self) -> ColorTok {
        match self {
            ColorParse::Named { color } => ColorTok::Named { color: *color },
            ColorParse::DefaultTok => ColorTok::DefaultTok,
            ColorParse::Bad => ColorTok::Bad,
        }
    }
}

/// Reads the text after a `=` sigil.
fn parse_color(rest: &str) -> (t: ColorParse)
    ensures
        t@ == color_token(rest@),
{
    if str_eq(rest, "black") {
        ColorParse::Named { color: ColorName::Black }
    } else if str_eq(rest, "red") {
        ColorParse::Named { color: ColorName::Red }
    } else if str_eq(rest, "green") {
        ColorParse::Named { color: ColorName::Green }
    } else if str_eq(rest, "yellow") {
        ColorParse::Named { color: ColorName::Yellow }
    } else if str_eq(rest, "blue") {
        ColorParse::Named { color: ColorName::Blue }
    } else if str_eq(rest, "purple") {
        ColorParse::Named { color: ColorName::Purple }
    } else if str_eq(rest, "cyan") {
        ColorParse::Named { color: ColorName::Cyan }
    } else if str_eq(rest, "white") {
        ColorParse::Named { color: ColorName::White }
    } else if str_eq(rest, "default") {
        ColorParse::DefaultTok
    } else {
        ColorParse::Bad
    }
}

/// The executable form of a read style token.
enum StyleParse {
    JustBold,
    JustUnderline,
    BoldUnderline,
    Bad,
}

impl View for StyleParse {
    type V = StyleTok;

    closed spec fn view(&self) -> StyleTok {
        match self {
            StyleParse::JustBold => StyleTok::JustBold,
            StyleParse::JustUnderline => StyleTok::JustUnderline,
            StyleParse::BoldUnderline => StyleTok::BoldUnderline,
            StyleParse::Bad => StyleTok::Bad,
        }
    }
}

/// Reads the text after a `+` sigil.
fn parse_style(rest: &str) -> (t: StyleParse)
    ensures
        t@ == style_token(rest@),
{
    if str_eq(rest, "b") {
        StyleParse::JustBold
    } else if str_eq(rest, "u") {
        StyleParse::JustUnderline
    } else if str_eq(rest, "bu") || str_eq(rest, "ub") {
        StyleParse::BoldUnderline
    } else {
        StyleParse::Bad
    }
}

/// Mapping a view over a pushed directive sequence.
proof fn lemma_map_view_push(dirs: Seq<Directive>, d: Directive)
    ensures
        dirs.push(d).map_values(|x: Directive| x@) == dirs.map_values(|x: Directive| x@).push(d@),
{
    assert(dirs.push(d).map_values(|x: Directive| x@) =~= dirs.map_values(
        |x: Directive| x@,
    ).push(d@));
}

/// Compiles the lines of a rule file into a rule set.
///
/// Succeeds exactly when the capture-balance walk of `compile_from` does,
/// yielding the same directives in the same order; any fatal condition is
/// reported as the same error `compile_from` reaches, with its 1-based line
/// number. A successful result is well formed: every rule span reaches a
/// terminal directive.
pub fn compile(lines: &Vec<String>) -> (r: Result<RuleSet, CompileError>)
    ensures
        (match compile_spec(rule_lines_view(lines@)) {
            Ok(ds) => r matches Ok(rs) && rs@ == ds && ruleset_wf(rs@),
            Err(es) => r matches Err(e) && e@ == es,
        }),
{
    let ghost lv = rule_lines_view(lines@);
    let mut dirs: Vec<Directive> = Vec::new();
    let mut pending: usize = 0;
    let mut i: usize = 0;
    proof {
        assert(dirs@.map_values(|x: Directive| x@) =~= Seq::<DirSpec>::empty());
    }
    while i < lines.len()
        invariant
            i <= lines.len(),
            lv == rule_lines_view(lines@),
            lv.len() == lines@.len(),
            compile_spec(lv) == compile_from(
                lv,
                i as int,
                dirs@.map_values(|x: Directive| x@),
                pending as nat,
            ),
            balance_inv(dirs@.map_values(|x: Directive| x@), pending as nat),
        decreases lines.len() - i,
    {
        let ghost acc = dirs@.map_values(|x: Directive| x@);
        let line: &String = &lines[i];
        proof {
            assert(lv[i as int] == line@);
        }
        let k = classify_line(line.as_str());
        match k {
            LineKind::Skip => {},
            LineKind::Unknown => {},
            LineKind::PatternDecl { pat } => {
                match Pattern::compile(pat) {
                    Err(message) => {
                        return Err(CompileError::InvalidRegex { line: i + 1, message });
                    },
                    Ok(p) => {
                        if pending > 0 {
                            return Err(CompileError::PatternWhilePending { line: i + 1 });
                        }
                        let n = p.capture_count();
                        proof {
                            lemma_push_pattern_opens(acc, p@);
                            lemma_map_view_push(dirs@, Directive::Pattern(p));
                        }
                        dirs.push(Directive::Pattern(p));
                        pending = n;
                    },
                }
            },
            LineKind::ColorDecl { rest } => {
                match parse_color(rest) {
                    ColorParse::Bad => {
                        return Err(CompileError::UnknownColor { line: i + 1 });
                    },
                    ColorParse::Named { color } => {
                        if pending == 0 {
                            return Err(CompileError::ExtraColor { line: i + 1 });
                        }
                        proof {
                            lemma_push_terminal_closes(acc, DirSpec::Color { color });
                            lemma_map_view_push(dirs@, Directive::Color(color));
                        }
                        dirs.push(Directive::Color(color));
                        pending = pending - 1;
                    },
                    ColorParse::DefaultTok => {
                        if pending == 0 {
                            return Err(CompileError::ExtraColor { line: i + 1 });
                        }
                        proof {
                            lemma_push_terminal_closes(acc, DirSpec::ColorDefault);
                            lemma_map_view_push(dirs@, Directive::ColorDefault);
                        }
                        dirs.push(Directive::ColorDefault);
                        pending = pending - 1;
                    },
                }
            },
            LineKind::StyleDecl { rest } => {
                if pending > 0 {
                    match parse_style(rest) {
                        StyleParse::JustBold => {
                            proof {
                                if ruleset_wf(acc) {
                                    lemma_wf_push_non_pattern(acc, DirSpec::Bold);
                                } else {
                                    lemma_push_style_keeps_open(acc, DirSpec::Bold);
                                }
                                lemma_map_view_push(dirs@, Directive::Bold);
                            }
                            dirs.push(Directive::Bold);
                        },
                        StyleParse::JustUnderline => {
                            proof {
                                if ruleset_wf(acc) {
                                    lemma_wf_push_non_pattern(acc, DirSpec::Underline);
                                } else {
                                    lemma_push_style_keeps_open(acc, DirSpec::Underline);
                                }
                                lemma_map_view_push(dirs@, Directive::Underline);
                            }
                            dirs.push(Directive::Underline);
                        },
                        StyleParse::BoldUnderline => {
                            proof {
                                if ruleset_wf(acc) {
                                    lemma_wf_push_non_pattern(acc, DirSpec::Bold);
                                    lemma_wf_push_non_pattern(acc.push(DirSpec::Bold), DirSpec::Underline);
                                } else {
                                    lemma_push_style_keeps_open(acc, DirSpec::Bold);
                                    lemma_push_style_keeps_open(acc.push(DirSpec::Bold), DirSpec::Underline);
                                }
                                lemma_map_view_push(dirs@, Directive::Bold);
                                lemma_map_view_push(dirs@.push(Directive::Bold), Directive::Underline);
                            }
                            dirs.push(Directive::Bold);
                            dirs.push(Directive::Underline);
                        },
                        StyleParse::Bad => {},
                    }
                }
            },
            LineKind::SuppressDecl => {
                if pending > 0 {
                    proof {
                        lemma_push_terminal_closes(acc, DirSpec::Suppress);
                        lemma_map_view_push(dirs@, Directive::Suppress);
                    }
                    dirs.push(Directive::Suppress);
                    pending = 0;
                }
            },
        }
        i = i + 1;
    }
    if pending > 0 {
        return Err(CompileError::MissingColors { expected: pending });
    }
    Ok(RuleSet { dirs })
}

} // verus!
