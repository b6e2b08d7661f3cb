//! Colorizes lines of text by a small rule-file language: regular-expression
//! patterns paired with capture-indexed color and style directives.
//!
//! The rule compiler turns the lines of a rule file into an ordered, validated
//! sequence of directives; the styling engine finds the first pattern matching
//! an input line and applies that pattern's directive span to it.

mod compiler;
mod directive;
mod engine;
mod pattern;
mod text;

pub use compiler::ColorTok;
pub use compiler::CompileError;
pub use compiler::CompileErrorSpec;
pub use compiler::LineClass;
pub use compiler::StyleTok;
pub use compiler::body_dirs;
pub use compiler::classify;
pub use compiler::color_count;
pub use compiler::color_token;
pub use compiler::compile;
pub use compiler::compile_from;
pub use compiler::compile_spec;
pub use compiler::is_color_line;
pub use compiler::is_pattern_line_ok;
pub use compiler::is_style_line;
pub use compiler::lemma_capture_balance_missing;
pub use compiler::lemma_capture_balance_suppress;
pub use compiler::lemma_capture_balance_valid;
pub use compiler::lemma_second_pattern_rejected;
pub use compiler::rule_lines_view;
pub use compiler::style_token;
pub use directive::ColorName;
pub use directive::DirSpec;
pub use directive::Directive;
pub use directive::RuleSet;
pub use directive::dir_is_style;
pub use directive::dir_is_terminal;
pub use directive::ruleset_wf;
pub use directive::span_closed;
pub use engine::Outcome;
pub use engine::OutcomeSpec;
pub use engine::lemma_first_match_wins;
pub use engine::lemma_matched_line_not_passed_through;
pub use engine::lemma_passthrough;
pub use engine::lemma_suppress;
pub use engine::matches_line;
pub use engine::outcome_eq;
pub use engine::scan_from;
pub use engine::style_line;
pub use engine::style_line_spec;
pub use engine::walk_span;
pub use pattern::Pattern;
pub use pattern::regex_match;
pub use pattern::regex_ncaps;
pub use pattern::regex_ok;
pub use text::str_eq;
