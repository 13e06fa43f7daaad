//! The rule contract, the closed catalog, and catalog evaluation.

use vstd::prelude::*;

use crate::rules::{
    CharMaxPerLine, DoubleSpace, EmptyLines, FitOnOneLine, HyphenTwoLines, HyphenWithoutSpace,
    LeadingSpace, LineCount, NoCommaOrPeriod, NoDuplicatedPunctuation, NoFullWidthNumber,
    NoU22EFEllipsis, QuotesMismatchClosingOnly, QuotesMismatchOpeningOnly, TrailingSpace,
};
use crate::rules::line_has_double_ws;
use crate::text::lines_of;

verus! {

/// A named, stateless predicate over a block's text.  `lint` returns true
/// when the text satisfies the rule.
pub trait Lint {
    spec fn spec_code(&self) -> Seq<char>;

    spec fn spec_message(&self) -> Seq<char>;

    spec fn spec_lint(&self, t: Seq<char>) -> bool;

    fn code(&self) -> (r: &'static str)
        ensures
            r@ == self.spec_code(),
    ;

    fn message(&self) -> (r: &'static str)
        ensures
            r@ == self.spec_message(),
    ;

    fn lint(&self, s: &str) -> (r: bool)
        ensures
            r == self.spec_lint(s@),
    ;
}

/// The closed set of rules, one variant per rule.
#[derive(Debug, Clone, Copy)]
pub enum Lints {
    Spaces(DoubleSpace),
    TrailingSpace(TrailingSpace),
    LeadingSpace(LeadingSpace),
    EmptyLines(EmptyLines),
    HyphenTwoLines(HyphenTwoLines),
    HyphenWithoutSpace(HyphenWithoutSpace),
    CharMaxPerLine(CharMaxPerLine),
    LineCount(LineCount),
    FitOnOneLine(FitOnOneLine),
    NoDuplicatedPunctuation(NoDuplicatedPunctuation),
    NoFullWidthNumber(NoFullWidthNumber),
    NoCommaOrPeriod(NoCommaOrPeriod),
    NoU22EFEllipsis(NoU22EFEllipsis),
    QuotesMismatchOpeningOnly(QuotesMismatchOpeningOnly),
    QuotesMismatchClosingOnly(QuotesMismatchClosingOnly),
}

impl Lint for Lints {
    open spec fn spec_code(&self) -> Seq<char> {
        match self {
            Lints::Spaces(l) => l.spec_code(),
            Lints::TrailingSpace(l) => l.spec_code(),
            Lints::LeadingSpace(l) => l.spec_code(),
            Lints::EmptyLines(l) => l.spec_code(),
            Lints::HyphenTwoLines(l) => l.spec_code(),
            Lints::HyphenWithoutSpace(l) => l.spec_code(),
            Lints::CharMaxPerLine(l) => l.spec_code(),
            Lints::LineCount(l) => l.spec_code(),
            Lints::FitOnOneLine(l) => l.spec_code(),
            Lints::NoDuplicatedPunctuation(l) => l.spec_code(),
            Lints::NoFullWidthNumber(l) => l.spec_code(),
            Lints::NoCommaOrPeriod(l) => l.spec_code(),
            Lints::NoU22EFEllipsis(l) => l.spec_code(),
            Lints::QuotesMismatchOpeningOnly(l) => l.spec_code(),
            Lints::QuotesMismatchClosingOnly(l) => l.spec_code(),
        }
    }

    open spec fn spec_message(&self) -> Seq<char> {
        match self {
            Lints::Spaces(l) => l.spec_message(),
            Lints::TrailingSpace(l) => l.spec_message(),
            Lints::LeadingSpace(l) => l.spec_message(),
            Lints::EmptyLines(l) => l.spec_message(),
            Lints::HyphenTwoLines(l) => l.spec_message(),
            Lints::HyphenWithoutSpace(l) => l.spec_message(),
            Lints::CharMaxPerLine(l) => l.spec_message(),
            Lints::LineCount(l) => l.spec_message(),
            Lints::FitOnOneLine(l) => l.spec_message(),
            Lints::NoDuplicatedPunctuation(l) => l.spec_message(),
            Lints::NoFullWidthNumber(l) => l.spec_message(),
            Lints::NoCommaOrPeriod(l) => l.spec_message(),
            Lints::NoU22EFEllipsis(l) => l.spec_message(),
            Lints::QuotesMismatchOpeningOnly(l) => l.spec_message(),
            Lints::QuotesMismatchClosingOnly(l) => l.spec_message(),
        }
    }

    open spec fn spec_lint(&self, t: Seq<char>) -> bool {
        match self {
            Lints::Spaces(l) => l.spec_lint(t),
            Lints::TrailingSpace(l) => l.spec_lint(t),
            Lints::LeadingSpace(l) => l.spec_lint(t),
            Lints::EmptyLines(l) => l.spec_lint(t),
            Lints::HyphenTwoLines(l) => l.spec_lint(t),
            Lints::HyphenWithoutSpace(l) => l.spec_lint(t),
            Lints::CharMaxPerLine(l) => l.spec_lint(t),
            Lints::LineCount(l) => l.spec_lint(t),
            Lints::FitOnOneLine(l) => l.spec_lint(t),
            Lints::NoDuplicatedPunctuation(l) => l.spec_lint(t),
            Lints::NoFullWidthNumber(l) => l.spec_lint(t),
            Lints::NoCommaOrPeriod(l) => l.spec_lint(t),
            Lints::NoU22EFEllipsis(l) => l.spec_lint(t),
            Lints::QuotesMismatchOpeningOnly(l) => l.spec_lint(t),
            Lints::QuotesMismatchClosingOnly(l) => l.spec_lint(t),
        }
    }

    fn code(&self) -> &'static str {
        match self {
            Lints::Spaces(l) => l.code(),
            Lints::TrailingSpace(l) => l.code(),
            Lints::LeadingSpace(l) => l.code(),
            Lints::EmptyLines(l) => l.code(),
            Lints::HyphenTwoLines(l) => l.code(),
            Lints::HyphenWithoutSpace(l) => l.code(),
            Lints::CharMaxPerLine(l) => l.code(),
            Lints::LineCount(l) => l.code(),
            Lints::FitOnOneLine(l) => l.code(),
            Lints::NoDuplicatedPunctuation(l) => l.code(),
            Lints::NoFullWidthNumber(l) => l.code(),
            Lints::NoCommaOrPeriod(l) => l.code(),
            Lints::NoU22EFEllipsis(l) => l.code(),
            Lints::QuotesMismatchOpeningOnly(l) => l.code(),
            Lints::QuotesMismatchClosingOnly(l) => l.code(),
        }
    }

    fn message(&self) -> &'static str {
        match self {
            Lints::Spaces(l) => l.message(),
            Lints::TrailingSpace(l) => l.message(),
            Lints::LeadingSpace(l) => l.message(),
            Lints::EmptyLines(l) => l.message(),
            Lints::HyphenTwoLines(l) => l.message(),
            Lints::HyphenWithoutSpace(l) => l.message(),
            Lints::CharMaxPerLine(l) => l.message(),
            Lints::LineCount(l) => l.message(),
            Lints::FitOnOneLine(l) => l.message(),
            Lints::NoDuplicatedPunctuation(l) => l.message(),
            Lints::NoFullWidthNumber(l) => l.message(),
            Lints::NoCommaOrPeriod(l) => l.message(),
            Lints::NoU22EFEllipsis(l) => l.message(),
            Lints::QuotesMismatchOpeningOnly(l) => l.message(),
            Lints::QuotesMismatchClosingOnly(l) => l.message(),
        }
    }

    fn lint(&self, s: &str) -> bool {
        match self {
            Lints::Spaces(l) => l.lint(s),
            Lints::TrailingSpace(l) => l.lint(s),
            Lints::LeadingSpace(l) => l.lint(s),
            Lints::EmptyLines(l) => l.lint(s),
            Lints::HyphenTwoLines(l) => l.lint(s),
            Lints::HyphenWithoutSpace(l) => l.lint(s),
            Lints::CharMaxPerLine(l) => l.lint(s),
            Lints::LineCount(l) => l.lint(s),
            Lints::FitOnOneLine(l) => l.lint(s),
            Lints::NoDuplicatedPunctuation(l) => l.lint(s),
            Lints::NoFullWidthNumber(l) => l.lint(s),
            Lints::NoCommaOrPeriod(l) => l.lint(s),
            Lints::NoU22EFEllipsis(l) => l.lint(s),
            Lints::QuotesMismatchOpeningOnly(l) => l.lint(s),
            Lints::QuotesMismatchClosingOnly(l) => l.lint(s),
        }
    }
}

/// The catalog: the fixed, ordered set of all rules.  The order decides the
/// order failures are reported in.
pub open spec fn catalog() -> Seq<Lints> {
    seq![
        Lints::Spaces(DoubleSpace),
        Lints::TrailingSpace(TrailingSpace),
        Lints::LeadingSpace(LeadingSpace),
        Lints::EmptyLines(EmptyLines),
        Lints::HyphenTwoLines(HyphenTwoLines),
        Lints::HyphenWithoutSpace(HyphenWithoutSpace),
        Lints::CharMaxPerLine(CharMaxPerLine),
        Lints::LineCount(LineCount),
        Lints::FitOnOneLine(FitOnOneLine),
        Lints::NoDuplicatedPunctuation(NoDuplicatedPunctuation),
        Lints::NoFullWidthNumber(NoFullWidthNumber),
        Lints::NoCommaOrPeriod(NoCommaOrPeriod),
        Lints::NoU22EFEllipsis(NoU22EFEllipsis),
        Lints::QuotesMismatchOpeningOnly(QuotesMismatchOpeningOnly),
        Lints::QuotesMismatchClosingOnly(QuotesMismatchClosingOnly),
    ]
}

/// Failing on `t`, as a predicate a catalog entry may satisfy.
pub open spec fn lint_fails(t: Seq<char>) -> spec_fn(Lints) -> bool {
    |l: Lints| !l.spec_lint(t)
}

/// The rules of the catalog that fail on `t`, in catalog order.
pub open spec fn spec_failed_lints(t: Seq<char>) -> Seq<Lints> {
    catalog().filter(lint_fails(t))
}

pub proof fn lemma_failed_lints_bound(t: Seq<char>)
    ensures
        spec_failed_lints(t).len() <= 15,
{
    catalog().lemma_filter_len(lint_fails(t));
}

proof fn lemma_filter_take_step<A>(s: Seq<A>, pred: spec_fn(A) -> bool, i: int)
    requires
        0 <= i < s.len(),
    ensures
        s.take(i + 1).filter(pred) == if pred(s[i]) {
            s.take(i).filter(pred).push(s[i])
        } else {
            s.take(i).filter(pred)
        },
{
    assert(s.take(i + 1).drop_last() =~= s.take(i));
    assert(s.take(i + 1).last() == s[i]);
    reveal(Seq::filter);
}

impl Lints {
    /// The executable catalog, in catalog order.
    pub fn all() -> (r: Vec<Lints>)
        ensures
            r@ == catalog(),
    {
        let mut v: Vec<Lints> = Vec::new();
        v.push(Lints::Spaces(DoubleSpace));
        v.push(Lints::TrailingSpace(TrailingSpace));
        v.push(Lints::LeadingSpace(LeadingSpace));
        v.push(Lints::EmptyLines(EmptyLines));
        v.push(Lints::HyphenTwoLines(HyphenTwoLines));
        v.push(Lints::HyphenWithoutSpace(HyphenWithoutSpace));
        v.push(Lints::CharMaxPerLine(CharMaxPerLine));
        v.push(Lints::LineCount(LineCount));
        v.push(Lints::FitOnOneLine(FitOnOneLine));
        v.push(Lints::NoDuplicatedPunctuation(NoDuplicatedPunctuation));
        v.push(Lints::NoFullWidthNumber(NoFullWidthNumber));
        v.push(Lints::NoCommaOrPeriod(NoCommaOrPeriod));
        v.push(Lints::NoU22EFEllipsis(NoU22EFEllipsis));
        v.push(Lints::QuotesMismatchOpeningOnly(QuotesMismatchOpeningOnly));
        v.push(Lints::QuotesMismatchClosingOnly(QuotesMismatchClosingOnly));
        proof {
            assert(v@ =~= catalog());
        }
        v
    }

    /// Evaluates every catalog rule against `s` and returns the rules that
    /// failed, preserving catalog order.
    pub fn check_on(s: &str) -> (r: Vec<Lints>)
        ensures
            r@ == spec_failed_lints(s@),
    {
        let cat = Lints::all();
        let mut r: Vec<Lints> = Vec::new();
        let mut i: usize = 0;
        while i < cat.len()
            invariant
                i <= cat@.len(),
                cat@ == catalog(),
                r@ == catalog().take(i as int).filter(lint_fails(s@)),
            decreases cat@.len() - i,
        {
            let l = cat[i];
            proof {
                lemma_filter_take_step(catalog(), lint_fails(s@), i as int);
            }
            if !l.lint(s) {
                r.push(l);
            }
            i = i + 1;
        }
        proof {
            assert(catalog().take(catalog().len() as int) =~= catalog());
        }
        r
    }
}

/// When a text satisfies every rule of the catalog, no rule is reported:
/// `check_on` returns the empty list on clean text.
pub proof fn lemma_clean_text_reports_nothing(t: Seq<char>)
    requires
        forall|i: int| 0 <= i < catalog().len() ==> (#[trigger] catalog()[i]).spec_lint(t),
    ensures
        spec_failed_lints(t) == Seq::<Lints>::empty(),
{
    lemma_filter_none(catalog(), lint_fails(t));
    assert(spec_failed_lints(t) =~= Seq::<Lints>::empty());
}

proof fn lemma_filter_none<A>(s: Seq<A>, pred: spec_fn(A) -> bool)
    requires
        forall|i: int| 0 <= i < s.len() ==> !pred(#[trigger] s[i]),
    ensures
        s.filter(pred).len() == 0,
    decreases s.len(),
{
    reveal(Seq::filter);
    if s.len() > 0 {
        lemma_filter_none(s.drop_last(), pred);
    }
}

/// A text with a run of two or more whitespace characters on some line is
/// always reported: the double-space rule is among the failed rules.
pub proof fn lemma_double_space_reported(t: Seq<char>)
    requires
        exists|k: int| 0 <= k < lines_of(t).len() && line_has_double_ws(#[trigger] lines_of(t)[k]),
    ensures
        spec_failed_lints(t).contains(Lints::Spaces(DoubleSpace)),
{
    assert(catalog()[0] == Lints::Spaces(DoubleSpace));
    assert(!Lints::Spaces(DoubleSpace).spec_lint(t));
    assert(lint_fails(t)(catalog()[0]));
    catalog().lemma_filter_contains(lint_fails(t), 0);
}

} // verus!
