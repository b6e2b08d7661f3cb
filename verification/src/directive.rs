//! The compiled rule language: directives, rule sets, and the shape a
//! validated rule set is guaranteed to have.

use vstd::prelude::*;

use crate::pattern::Pattern;

verus! {

/// A terminal foreground color a rule can select.
#[derive(Clone, Copy, Debug, PartialEq, Eq, Structural)]
pub enum ColorName {
    Black,
    Red,
    Green,
    Yellow,
    Blue,
    Purple,
    Cyan,
    White,
}

/// One compiled instruction of a rule set.
pub enum Directive {
    /// A pattern: lines matching it are styled by the directives that follow,
    /// up to the first terminal one.
    Pattern(Pattern),
    /// Terminal: render the line in the accumulated style with this
    /// foreground color.
    Color(ColorName),
    /// Terminal: render the line in the accumulated style with no foreground
    /// color override.
    ColorDefault,
    /// Accumulate bold.
    Bold,
    /// Accumulate underline.
    Underline,
    /// Terminal: drop the line entirely.
    Suppress,
}

/// The mathematical shape of a directive: a pattern is its source text.
pub enum DirSpec {
    Pattern { pat: Seq<char> },
    Color { color: ColorName },
    ColorDefault,
    Bold,
    Underline,
    Suppress,
}

impl View for Directive {
    type V = DirSpec;

    open spec fn view(&self) -> DirSpec {
        match self {
            Directive::Pattern(p) => DirSpec::Pattern { pat: p@ },
            Directive::Color(c) => DirSpec::Color { color: *c },
            Directive::ColorDefault => DirSpec::ColorDefault,
            Directive::Bold => DirSpec::Bold,
            Directive::Underline => DirSpec::Underline,
            Directive::Suppress => DirSpec::Suppress,
        }
    }
}

/// A style-accumulation directive: one that neither matches nor terminates.
pub open spec fn dir_is_style(d: DirSpec) -> bool {
    d is Bold || d is Underline
}

/// A terminal directive: one that ends a rule span for a matched line.
pub open spec fn dir_is_terminal(d: DirSpec) -> bool {
    d is Color || d is ColorDefault || d is Suppress
}

/// The pattern at `i` has a terminal directive after it, with only style
/// accumulators in between: its span can always reach a terminal action.
pub open spec fn span_closed(rules: Seq<DirSpec>, i: int) -> bool {
    exists|t: int|
        i < t < rules.len() && dir_is_terminal(rules[t]) && (forall|k: int|
            i < k < t ==> dir_is_style(#[trigger] rules[k]))
}

/// A well-formed rule set: every pattern's span reaches a terminal directive
/// before the next pattern begins. Successful compilation guarantees this.
pub open spec fn ruleset_wf(rules: Seq<DirSpec>) -> bool {
    forall|i: int|
        0 <= i < rules.len() && (#[trigger] rules[i]) is Pattern ==> span_closed(rules, i)
}

/// An ordered sequence of directives, immutable once compiled. Order is
/// meaningful twice over: it fixes which pattern a line is tried against
/// first, and which actions belong to which pattern.
pub struct RuleSet {
    pub dirs: Vec<Directive>,
}

impl View for RuleSet {
    type V = Seq<DirSpec>;

    open spec fn view(&self) -> Seq<DirSpec> {
        self.dirs@.map_values(|d: Directive| d@)
    }
}

impl RuleSet {
    /// How many directives the rule set holds.
    pub fn len(&self) -> (n: usize)
        ensures
            n == self@.len(),
    {
        self.dirs.len()
    }

    /// The directive at position `i`.
    pub fn directive(&self, i: usize) -> (d: &Directive)
        requires
            i < self@.len(),
        ensures
            d@ == self@[i as int],
    {
        &self.dirs[i]
    }
}

} // verus!
