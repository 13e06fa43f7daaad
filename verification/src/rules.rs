//! The individual lint rules.
//!
//! Most rules constrain each line of a block independently; they share the
//! `LineRule` contract and one verified per-line driver.  The dialogue-hyphen
//! pairing rule and the two quote-balance rules read the whole block text.

use vstd::prelude::*;

use crate::lints::Lint;
use crate::text::{all_ws, chars_vec, is_all_ws, is_punct, is_punct_char, is_ws, is_ws_char,
    lines_of, lines_vec};

verus! {

/// A constraint every line of a block must satisfy: `line_bad` holds of a
/// line that violates it.
pub trait LineRule {
    spec fn line_bad(&self, l: Seq<char>) -> bool;

    fn check_line(&self, l: &Vec<char>) -> (r: bool)
        ensures
            r == self.line_bad(l@),
    ;
}

/// No line of `t` violates the rule.
pub open spec fn lines_ok<R: LineRule>(r: &R, t: Seq<char>) -> bool {
    forall|k: int| 0 <= k < lines_of(t).len() ==> !r.line_bad(#[trigger] lines_of(t)[k])
}

/// Runs a per-line rule over every line of `s`.
fn check_lines<R: LineRule>(r: &R, s: &str) -> (ok: bool)
    ensures
        ok == lines_ok(r, s@),
{
    let cs = chars_vec(s);
    let lines = lines_vec(&cs);
    let mut k: usize = 0;
    while k < lines.len()
        invariant
            k <= lines@.len(),
            lines@.len() == lines_of(s@).len(),
            forall|j: int| 0 <= j < lines@.len() ==> (#[trigger] lines@[j])@ == lines_of(s@)[j],
            forall|j: int| 0 <= j < k ==> !r.line_bad(#[trigger] lines_of(s@)[j]),
        decreases lines@.len() - k,
    {
        if r.check_line(&lines[k]) {
            proof {
                assert(r.line_bad(lines_of(s@)[k as int]));
            }
            return false;
        }
        k = k + 1;
    }
    true
}

/// Some two consecutive characters of the line are both whitespace.
pub open spec fn line_has_double_ws(l: Seq<char>) -> bool {
    exists|i: int| 0 <= i && i + 1 < l.len() && is_ws_char(#[trigger] l[i]) && is_ws_char(l[i + 1])
}

#[derive(Debug, Default, Clone, Copy)]
pub struct DoubleSpace;

impl LineRule for DoubleSpace {
    open spec fn line_bad(&self, l: Seq<char>) -> bool {
        line_has_double_ws(l)
    }

    fn check_line(&self, l: &Vec<char>) -> bool {
        let mut i: usize = 0;
        while i < l.len()
            invariant
                i <= l@.len(),
                forall|j: int|
                    0 <= j && j + 1 < l@.len() && j < i ==> !(is_ws_char(#[trigger] l@[j])
                        && is_ws_char(l@[j + 1])),
            decreases l@.len() - i,
        {
            if i + 1 < l.len() && is_ws(l[i]) && is_ws(l[i + 1]) {
                return true;
            }
            i = i + 1;
        }
        false
    }
}

impl Lint for DoubleSpace {
    open spec fn spec_code(&self) -> Seq<char> {
        "LXX-001"@
    }

    open spec fn spec_message(&self) -> Seq<char> {
        "No double space allowed"@
    }

    open spec fn spec_lint(&self, t: Seq<char>) -> bool {
        lines_ok(self, t)
    }

    fn code(&self) -> &'static str {
        "LXX-001"
    }

    fn message(&self) -> &'static str {
        "No double space allowed"
    }

    fn lint(&self, s: &str) -> bool {
        check_lines(self, s)
    }
}

#[derive(Debug, Default, Clone, Copy)]
pub struct TrailingSpace;

impl LineRule for TrailingSpace {
    open spec fn line_bad(&self, l: Seq<char>) -> bool {
        l.len() > 0 && is_ws_char(l.last())
    }

    fn check_line(&self, l: &Vec<char>) -> bool {
        l.len() > 0 && is_ws(l[l.len() - 1])
    }
}

impl Lint for TrailingSpace {
    open spec fn spec_code(&self) -> Seq<char> {
        "LXX-002"@
    }

    open spec fn spec_message(&self) -> Seq<char> {
        "No trailing space allowed"@
    }

    open spec fn spec_lint(&self, t: Seq<char>) -> bool {
        lines_ok(self, t)
    }

    fn code(&self) -> &'static str {
        "LXX-002"
    }

    fn message(&self) -> &'static str {
        "No trailing space allowed"
    }

    fn lint(&self, s: &str) -> bool {
        check_lines(self, s)
    }
}

#[derive(Debug, Default, Clone, Copy)]
pub struct LeadingSpace;

impl LineRule for LeadingSpace {
    open spec fn line_bad(&self, l: Seq<char>) -> bool {
        l.len() > 0 && is_ws_char(l[0])
    }

    fn check_line(&self, l: &Vec<char>) -> bool {
        l.len() > 0 && is_ws(l[0])
    }
}

impl Lint for LeadingSpace {
    open spec fn spec_code(&self) -> Seq<char> {
        "LXX-003"@
    }

    open spec fn spec_message(&self) -> Seq<char> {
        "No leading space allowed"@
    }

    open spec fn spec_lint(&self, t: Seq<char>) -> bool {
        lines_ok(self, t)
    }

    fn code(&self) -> &'static str {
        "LXX-003"
    }

    fn message(&self) -> &'static str {
        "No leading space allowed"
    }

    fn lint(&self, s: &str) -> bool {
        check_lines(self, s)
    }
}

#[derive(Debug, Default, Clone, Copy)]
pub struct EmptyLines;

impl LineRule for EmptyLines {
    open spec fn line_bad(&self, l: Seq<char>) -> bool {
        all_ws(l)
    }

    fn check_line(&self, l: &Vec<char>) -> bool {
        is_all_ws(l)
    }
}

impl Lint for EmptyLines {
    open spec fn spec_code(&self) -> Seq<char> {
        "LXX-004"@
    }

    open spec fn spec_message(&self) -> Seq<char> {
        "No empty lines allowed"@
    }

    open spec fn spec_lint(&self, t: Seq<char>) -> bool {
        lines_ok(self, t)
    }

    fn code(&self) -> &'static str {
        "LXX-004"
    }

    fn message(&self) -> &'static str {
        "No empty lines allowed"
    }

    fn lint(&self, s: &str) -> bool {
        check_lines(self, s)
    }
}

/// The first line and the line after the first newline either both carry the
/// dialogue hyphen or both lack it.  Nothing is demanded of a one-line text.
pub open spec fn hyphen_balanced(t: Seq<char>) -> bool {
    forall|k: int|
        (1 <= k && k + 1 < t.len() && #[trigger] t[k] == '\n' && (forall|j: int|
            1 <= j < k ==> t[j] != '\n')) ==> ((t[0] == '-') <==> (t[k + 1] == '-'))
}

#[derive(Debug, Default, Clone, Copy)]
pub struct HyphenTwoLines;

impl Lint for HyphenTwoLines {
    open spec fn spec_code(&self) -> Seq<char> {
        "NX05-001-1"@
    }

    open spec fn spec_message(&self) -> Seq<char> {
        "Hyphen should be used only when two speakers"@
    }

    open spec fn spec_lint(&self, t: Seq<char>) -> bool {
        hyphen_balanced(t)
    }

    fn code(&self) -> &'static str {
        "NX05-001-1"
    }

    fn message(&self) -> &'static str {
        "Hyphen should be used only when two speakers"
    }

    fn lint(&self, s: &str) -> bool {
        let cs = chars_vec(s);
        let n = cs.len();
        let ghost t = s@;
        let mut i: usize = 1;
        while i < n
            invariant
                1 <= i,
                n == t.len(),
                cs@ == t,
                t == s@,
                forall|j: int| 1 <= j < i ==> t[j] != '\n',
            decreases n - i,
        {
            if cs[i] == '\n' {
                if i + 1 < n {
                    let mismatch = (cs[0] == '-') == (cs[i + 1] != '-');
                    proof {
                        let ki = i as int;
                        if mismatch {
                            assert(!hyphen_balanced(t)) by {
                                if hyphen_balanced(t) {
                                    assert(1 <= ki && ki + 1 < t.len() && t[ki] == '\n' && (
                                    forall|j: int| 1 <= j < ki ==> t[j] != '\n'));
                                    assert((t[0] == '-') <==> (t[ki + 1] == '-'));
                                }
                            }
                        } else {
                            assert forall|k: int|
                                (1 <= k && k + 1 < t.len() && #[trigger] t[k] == '\n' && (
                                forall|j: int| 1 <= j < k ==> t[j] != '\n')) implies ((t[0] == '-')
                                <==> (t[k + 1] == '-')) by {
                                if 1 <= k && k + 1 < t.len() && t[k] == '\n' && (forall|j: int|
                                    1 <= j < k ==> t[j] != '\n') {
                                    if k < ki {
                                        assert(t[k] != '\n');
                                    } else if k > ki {
                                        assert(t[ki] != '\n');
                                    } else {
                                        assert(k == ki);
                                    }
                                }
                            }
                            assert(hyphen_balanced(t));
                        }
                    }
                    return !mismatch;
                } else {
                    proof {
                        assert forall|k: int|
                            (1 <= k && k + 1 < t.len() && #[trigger] t[k] == '\n' && (
                            forall|j: int| 1 <= j < k ==> t[j] != '\n')) implies ((t[0] == '-')
                            <==> (t[k + 1] == '-')) by {}
                    }
                    return true;
                }
            }
            i = i + 1;
        }
        proof {
            assert forall|k: int|
                (1 <= k && k + 1 < t.len() && #[trigger] t[k] == '\n' && (forall|j: int|
                    1 <= j < k ==> t[j] != '\n')) implies ((t[0] == '-') <==> (t[k + 1] == '-')) by {}
        }
        true
    }
}

#[derive(Debug, Default, Clone, Copy)]
pub struct HyphenWithoutSpace;

impl LineRule for HyphenWithoutSpace {
    open spec fn line_bad(&self, l: Seq<char>) -> bool {
        l.len() > 0 && l[0] == '-' && (l.len() == 1 || is_ws_char(l[1]))
    }

    fn check_line(&self, l: &Vec<char>) -> bool {
        l.len() > 0 && l[0] == '-' && (l.len() == 1 || is_ws(l[1]))
    }
}

impl Lint for HyphenWithoutSpace {
    open spec fn spec_code(&self) -> Seq<char> {
        "NX05-001-2"@
    }

    open spec fn spec_message(&self) -> Seq<char> {
        "Use an English hyphen without a space"@
    }

    open spec fn spec_lint(&self, t: Seq<char>) -> bool {
        lines_ok(self, t)
    }

    fn code(&self) -> &'static str {
        "NX05-001-2"
    }

    fn message(&self) -> &'static str {
        "Use an English hyphen without a space"
    }

    fn lint(&self, s: &str) -> bool {
        check_lines(self, s)
    }
}

/// A punctuation character counts one half-unit, any other character two:
/// twice the weighted character count of the catalog's length rules.
pub open spec fn half_width(c: char) -> int {
    if is_punct_char(c) {
        1
    } else {
        2
    }
}

pub open spec fn line_weight(l: Seq<char>) -> int
    decreases l.len(),
{
    if l.len() == 0 {
        0
    } else {
        line_weight(l.drop_last()) + half_width(l.last())
    }
}

pub open spec fn lines_weight(ls: Seq<Seq<char>>) -> int
    decreases ls.len(),
{
    if ls.len() == 0 {
        0
    } else {
        lines_weight(ls.drop_last()) + line_weight(ls.last())
    }
}

proof fn lemma_line_weight_step(l: Seq<char>, k: int)
    requires
        0 <= k < l.len(),
    ensures
        line_weight(l.take(k + 1)) == line_weight(l.take(k)) + half_width(l[k]),
{
    assert(l.take(k + 1).drop_last() =~= l.take(k));
    assert(l.take(k + 1).last() == l[k]);
}

proof fn lemma_line_weight_bounds(l: Seq<char>)
    ensures
        0 <= line_weight(l) <= 2 * l.len(),
    decreases l.len(),
{
    if l.len() > 0 {
        lemma_line_weight_bounds(l.drop_last());
    }
}

proof fn lemma_lines_weight_step(ls: Seq<Seq<char>>, k: int)
    requires
        0 <= k < ls.len(),
    ensures
        lines_weight(ls.take(k + 1)) == lines_weight(ls.take(k)) + line_weight(ls[k]),
{
    assert(ls.take(k + 1).drop_last() =~= ls.take(k));
    assert(ls.take(k + 1).last() == ls[k]);
}

fn line_weight_exec(l: &Vec<char>) -> (w: u128)
    ensures
        w as int == line_weight(l@),
{
    let mut w: u128 = 0;
    let mut i: usize = 0;
    while i < l.len()
        invariant
            i <= l@.len(),
            w as int == line_weight(l@.take(i as int)),
            w as int <= 2 * (i as int),
        decreases l@.len() - i,
    {
        let c = l[i];
        proof {
            lemma_line_weight_step(l@, i as int);
        }
        if is_punct(c) {
            w = w + 1;
        } else {
            w = w + 2;
        }
        i = i + 1;
    }
    proof {
        assert(l@.take(l@.len() as int) =~= l@);
    }
    w
}

#[derive(Debug, Default, Clone, Copy)]
pub struct CharMaxPerLine;

impl LineRule for CharMaxPerLine {
    /// The line's weighted character count exceeds 16, in half-units.
    open spec fn line_bad(&self, l: Seq<char>) -> bool {
        line_weight(l) > 32
    }

    fn check_line(&self, l: &Vec<char>) -> bool {
        line_weight_exec(l) > 32
    }
}

impl Lint for CharMaxPerLine {
    open spec fn spec_code(&self) -> Seq<char> {
        "NX1-001"@
    }

    open spec fn spec_message(&self) -> Seq<char> {
        "16 characters max per line"@
    }

    open spec fn spec_lint(&self, t: Seq<char>) -> bool {
        lines_ok(self, t)
    }

    fn code(&self) -> &'static str {
        "NX1-001"
    }

    fn message(&self) -> &'static str {
        "16 characters max per line"
    }

    fn lint(&self, s: &str) -> bool {
        check_lines(self, s)
    }
}

#[derive(Debug, Default, Clone, Copy)]
pub struct LineCount;

impl Lint for LineCount {
    open spec fn spec_code(&self) -> Seq<char> {
        "NX10-001"@
    }

    open spec fn spec_message(&self) -> Seq<char> {
        "Maximum two lines"@
    }

    open spec fn spec_lint(&self, t: Seq<char>) -> bool {
        lines_of(t).len() <= 2
    }

    fn code(&self) -> &'static str {
        "NX10-001"
    }

    fn message(&self) -> &'static str {
        "Maximum two lines"
    }

    fn lint(&self, s: &str) -> bool {
        let cs = chars_vec(s);
        let lines = lines_vec(&cs);
        lines.len() <= 2
    }
}

/// A dialogue line: the first character is a hyphen.
pub open spec fn is_dialogue_line(l: Seq<char>) -> bool {
    l.len() > 0 && l[0] == '-'
}

#[derive(Debug, Default, Clone, Copy)]
pub struct FitOnOneLine;

impl Lint for FitOnOneLine {
    open spec fn spec_code(&self) -> Seq<char> {
        "LXX-005"@
    }

    open spec fn spec_message(&self) -> Seq<char> {
        "Can fit on one line"@
    }

    /// A block passes when it is already one line, or is all dialogue lines,
    /// or its total weighted character count exceeds 15 (in half-units, 30).
    open spec fn spec_lint(&self, t: Seq<char>) -> bool {
        ||| lines_of(t).len() == 1
        ||| (forall|k: int|
            0 <= k < lines_of(t).len() ==> is_dialogue_line(#[trigger] lines_of(t)[k]))
        ||| lines_weight(lines_of(t)) > 30
    }

    fn code(&self) -> &'static str {
        "LXX-005"
    }

    fn message(&self) -> &'static str {
        "Can fit on one line"
    }

    fn lint(&self, s: &str) -> bool {
        let cs = chars_vec(s);
        let lines = lines_vec(&cs);
        let n = lines.len();
        if n == 1 {
            return true;
        }
        let mut all_d = true;
        let mut k: usize = 0;
        while k < n
            invariant
                k <= n,
                n == lines@.len(),
                lines@.len() == lines_of(s@).len(),
                forall|j: int| 0 <= j < lines@.len() ==> (#[trigger] lines@[j])@ == lines_of(s@)[j],
                all_d == (forall|j: int|
                    0 <= j < k ==> is_dialogue_line(#[trigger] lines_of(s@)[j])),
            decreases n - k,
        {
            let d = lines[k].len() > 0 && lines[k][0] == '-';
            proof {
                assert(d == is_dialogue_line(lines_of(s@)[k as int]));
            }
            all_d = all_d && d;
            k = k + 1;
        }
        if all_d {
            return true;
        }
        let mut total: u128 = 0;
        let mut over = false;
        let mut k2: usize = 0;
        while k2 < n
            invariant
                k2 <= n,
                n == lines@.len(),
                lines@.len() == lines_of(s@).len(),
                forall|j: int| 0 <= j < lines@.len() ==> (#[trigger] lines@[j])@ == lines_of(s@)[j],
                !over ==> total as int == lines_weight(lines_of(s@).take(k2 as int)) && total
                    <= 30,
                over ==> lines_weight(lines_of(s@).take(k2 as int)) > 30,
            decreases n - k2,
        {
            let lw = line_weight_exec(&lines[k2]);
            proof {
                lemma_lines_weight_step(lines_of(s@), k2 as int);
                lemma_line_weight_bounds(lines_of(s@)[k2 as int]);
            }
            if !over {
                if total + lw > 30 {
                    over = true;
                } else {
                    total = total + lw;
                }
            }
            k2 = k2 + 1;
        }
        proof {
            assert(lines_of(s@).take(lines_of(s@).len() as int) =~= lines_of(s@));
        }
        over
    }
}

#[derive(Debug, Default, Clone, Copy)]
pub struct NoDuplicatedPunctuation;

impl LineRule for NoDuplicatedPunctuation {
    open spec fn line_bad(&self, l: Seq<char>) -> bool {
        exists|i: int|
            0 <= i && i + 1 < l.len() && is_punct_char(#[trigger] l[i]) && is_punct_char(l[i + 1])
    }

    fn check_line(&self, l: &Vec<char>) -> bool {
        let mut i: usize = 0;
        while i < l.len()
            invariant
                i <= l@.len(),
                forall|j: int|
                    0 <= j && j + 1 < l@.len() && j < i ==> !(is_punct_char(#[trigger] l@[j])
                        && is_punct_char(l@[j + 1])),
            decreases l@.len() - i,
        {
            if i + 1 < l.len() && is_punct(l[i]) && is_punct(l[i + 1]) {
                return true;
            }
            i = i + 1;
        }
        false
    }
}

impl Lint for NoDuplicatedPunctuation {
    open spec fn spec_code(&self) -> Seq<char> {
        "NX12-009"@
    }

    open spec fn spec_message(&self) -> Seq<char> {
        "No duplicated punctuation allowed"@
    }

    open spec fn spec_lint(&self, t: Seq<char>) -> bool {
        lines_ok(self, t)
    }

    fn code(&self) -> &'static str {
        "NX12-009"
    }

    fn message(&self) -> &'static str {
        "No duplicated punctuation allowed"
    }

    fn lint(&self, s: &str) -> bool {
        check_lines(self, s)
    }
}

/// The fullwidth digits U+FF10 through U+FF19.
pub open spec fn is_fullwidth_digit(c: char) -> bool {
    '\u{ff10}' <= c && c <= '\u{ff19}'
}

#[derive(Debug, Default, Clone, Copy)]
pub struct NoFullWidthNumber;

impl LineRule for NoFullWidthNumber {
    open spec fn line_bad(&self, l: Seq<char>) -> bool {
        exists|i: int| 0 <= i < l.len() && is_fullwidth_digit(#[trigger] l[i])
    }

    fn check_line(&self, l: &Vec<char>) -> bool {
        let mut i: usize = 0;
        while i < l.len()
            invariant
                i <= l@.len(),
                forall|j: int| 0 <= j < i ==> !is_fullwidth_digit(#[trigger] l@[j]),
            decreases l@.len() - i,
        {
            if '\u{ff10}' <= l[i] && l[i] <= '\u{ff19}' {
                return true;
            }
            i = i + 1;
        }
        false
    }
}

impl Lint for NoFullWidthNumber {
    open spec fn spec_code(&self) -> Seq<char> {
        "NX11-002"@
    }

    open spec fn spec_message(&self) -> Seq<char> {
        "No full-width number allowed"@
    }

    open spec fn spec_lint(&self, t: Seq<char>) -> bool {
        lines_ok(self, t)
    }

    fn code(&self) -> &'static str {
        "NX11-002"
    }

    fn message(&self) -> &'static str {
        "No full-width number allowed"
    }

    fn lint(&self, s: &str) -> bool {
        check_lines(self, s)
    }
}

#[derive(Debug, Default, Clone, Copy)]
pub struct NoCommaOrPeriod;

impl LineRule for NoCommaOrPeriod {
    open spec fn line_bad(&self, l: Seq<char>) -> bool {
        exists|i: int| 0 <= i < l.len() && (#[trigger] l[i] == '.' || l[i] == ',')
    }

    fn check_line(&self, l: &Vec<char>) -> bool {
        let mut i: usize = 0;
        while i < l.len()
            invariant
                i <= l@.len(),
                forall|j: int| 0 <= j < i ==> !(#[trigger] l@[j] == '.' || l@[j] == ','),
            decreases l@.len() - i,
        {
            if l[i] == '.' || l[i] == ',' {
                return true;
            }
            i = i + 1;
        }
        false
    }
}

impl Lint for NoCommaOrPeriod {
    open spec fn spec_code(&self) -> Seq<char> {
        "NX12-001"@
    }

    open spec fn spec_message(&self) -> Seq<char> {
        "No comma or period allowed"@
    }

    open spec fn spec_lint(&self, t: Seq<char>) -> bool {
        lines_ok(self, t)
    }

    fn code(&self) -> &'static str {
        "NX12-001"
    }

    fn message(&self) -> &'static str {
        "No comma or period allowed"
    }

    fn lint(&self, s: &str) -> bool {
        check_lines(self, s)
    }
}

#[derive(Debug, Default, Clone, Copy)]
pub struct NoU22EFEllipsis;

impl LineRule for NoU22EFEllipsis {
    open spec fn line_bad(&self, l: Seq<char>) -> bool {
        exists|i: int| 0 <= i < l.len() && #[trigger] l[i] == '\u{22ef}'
    }

    fn check_line(&self, l: &Vec<char>) -> bool {
        let mut i: usize = 0;
        while i < l.len()
            invariant
                i <= l@.len(),
                forall|j: int| 0 <= j < i ==> #[trigger] l@[j] != '\u{22ef}',
            decreases l@.len() - i,
        {
            if l[i] == '\u{22ef}' {
                return true;
            }
            i = i + 1;
        }
        false
    }
}

impl Lint for NoU22EFEllipsis {
    open spec fn spec_code(&self) -> Seq<char> {
        "NX12-008"@
    }

    open spec fn spec_message(&self) -> Seq<char> {
        "No U+22EF ellipsis allowed"@
    }

    open spec fn spec_lint(&self, t: Seq<char>) -> bool {
        lines_ok(self, t)
    }

    fn code(&self) -> &'static str {
        "NX12-008"
    }

    fn message(&self) -> &'static str {
        "No U+22EF ellipsis allowed"
    }

    fn lint(&self, s: &str) -> bool {
        check_lines(self, s)
    }
}

/// Every opening curly quote is followed, somewhere later, by a closing one.
pub open spec fn openings_closed(t: Seq<char>) -> bool {
    forall|i: int|
        0 <= i < t.len() && #[trigger] t[i] == '“' ==> exists|j: int|
            i < j < t.len() && t[j] == '”'
}

#[derive(Debug, Default, Clone, Copy)]
pub struct QuotesMismatchOpeningOnly;

impl Lint for QuotesMismatchOpeningOnly {
    open spec fn spec_code(&self) -> Seq<char> {
        "LXX-006-001"@
    }

    open spec fn spec_message(&self) -> Seq<char> {
        "Opening quote without closing quote"@
    }

    open spec fn spec_lint(&self, t: Seq<char>) -> bool {
        openings_closed(t)
    }

    fn code(&self) -> &'static str {
        "LXX-006-001"
    }

    fn message(&self) -> &'static str {
        "Opening quote without closing quote"
    }

    fn lint(&self, s: &str) -> bool {
        let cs = chars_vec(s);
        let n = cs.len();
        let ghost t = s@;
        let mut pending = false;
        let ghost mut w: int = 0;
        let mut i: usize = 0;
        while i < n
            invariant
                i <= n,
                n == t.len(),
                cs@ == t,
                t == s@,
                pending ==> 0 <= w < i && t[w] == '“' && (forall|j: int|
                    w < j < i ==> t[j] != '”'),
                !pending ==> (forall|p: int|
                    0 <= p < i && #[trigger] t[p] == '“' ==> exists|j: int|
                        p < j < i && t[j] == '”'),
            decreases n - i,
        {
            let c = cs[i];
            if c == '“' {
                pending = true;
                proof {
                    w = i as int;
                }
            } else if c == '”' {
                proof {
                    if pending {
                        assert forall|p: int| 0 <= p < i + 1 && #[trigger] t[p] == '“'
                            implies exists|j: int| p < j < i + 1 && t[j] == '”' by {
                            assert(t[i as int] == '”');
                        }
                    }
                }
                pending = false;
            }
            i = i + 1;
        }
        proof {
            if pending {
                assert(!openings_closed(t)) by {
                    if openings_closed(t) {
                        assert(exists|j: int| w < j < t.len() && t[j] == '”');
                    }
                }
            }
        }
        !pending
    }
}

/// Every closing curly quote is preceded, somewhere earlier, by an opening
/// one.
pub open spec fn closings_opened(t: Seq<char>) -> bool {
    forall|k: int|
        0 <= k < t.len() && #[trigger] t[k] == '”' ==> exists|j: int| 0 <= j < k && t[j] == '“'
}

#[derive(Debug, Default, Clone, Copy)]
pub struct QuotesMismatchClosingOnly;

impl Lint for QuotesMismatchClosingOnly {
    open spec fn spec_code(&self) -> Seq<char> {
        "LXX-006-002"@
    }

    open spec fn spec_message(&self) -> Seq<char> {
        "closing quote without opening quote"@
    }

    open spec fn spec_lint(&self, t: Seq<char>) -> bool {
        closings_opened(t)
    }

    fn code(&self) -> &'static str {
        "LXX-006-002"
    }

    fn message(&self) -> &'static str {
        "closing quote without opening quote"
    }

    fn lint(&self, s: &str) -> bool {
        let cs = chars_vec(s);
        let n = cs.len();
        let ghost t = s@;
        let mut seen_open = false;
        let mut i: usize = 0;
        while i < n
            invariant
                i <= n,
                n == t.len(),
                cs@ == t,
                t == s@,
                seen_open ==> exists|j: int| 0 <= j < i && t[j] == '“',
                !seen_open ==> (forall|j: int| 0 <= j < i ==> t[j] != '“'),
                forall|k: int|
                    0 <= k < i && #[trigger] t[k] == '”' ==> exists|j: int|
                        0 <= j < k && t[j] == '“',
            decreases n - i,
        {
            let c = cs[i];
            if c == '“' {
                seen_open = true;
            } else if c == '”' && !seen_open {
                proof {
                    let ki = i as int;
                    assert(!closings_opened(t)) by {
                        if closings_opened(t) {
                            assert(0 <= ki < t.len() && t[ki] == '”');
                            assert(exists|j: int| 0 <= j < ki && t[j] == '“');
                            let j = choose|j: int| 0 <= j < ki && t[j] == '“';
                            assert(t[j] != '“');
                        }
                    }
                }
                return false;
            }
            i = i + 1;
        }
        true
    }
}

} // verus!
