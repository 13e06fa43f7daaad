//! The parsed file and the fold of per-block outcomes into a file verdict.

use vstd::prelude::*;
use vstd::string::StrSliceExecFns;

use crate::lints::{lemma_failed_lints_bound, spec_failed_lints};
use crate::message::{entry_matches, Message, ParseError};
use crate::numeral::{int_of, parses_to_i32};
use crate::text::{all_ws, block_ranges, chars_vec, first_nl, has_nl, is_all_ws, split_blocks};

verus! {

/// Why a block span fails to parse, if it does.
pub open spec fn span_err(t: Seq<char>) -> Option<ParseError> {
    if !has_nl(t) {
        Some(ParseError::MissingNewline)
    } else if !parses_to_i32(t.take(first_nl(t))) {
        Some(ParseError::InvalidId)
    } else {
        None
    }
}

/// The id on a span's first line; meaningful when the span parses.
pub open spec fn span_id(t: Seq<char>) -> int {
    int_of(t.take(first_nl(t)))
}

/// The text under a span's first line.
pub open spec fn span_text(t: Seq<char>) -> Seq<char> {
    t.skip(first_nl(t) + 1)
}

/// A message fails when at least one catalog rule fails on its text.
pub open spec fn msg_fails() -> spec_fn(Message) -> bool {
    |m: Message| spec_failed_lints(m.content@).len() > 0
}

/// The failing messages, in order of appearance.
pub open spec fn failing(ms: Seq<Message>) -> Seq<Message> {
    ms.filter(msg_fails())
}

/// The total failing-rule count: the sum, over the messages, of each
/// message's own count of failed rules.
pub open spec fn failed_lint_count(ms: Seq<Message>) -> int
    decreases ms.len(),
{
    if ms.len() == 0 {
        0
    } else {
        failed_lint_count(ms.drop_last()) + spec_failed_lints(ms.last().content@).len()
    }
}

/// The two failure counters vanish together: the total failing-rule count is
/// zero exactly when no message fails, and it always dominates the count of
/// failing messages.
pub proof fn lemma_counters_agree(ms: Seq<Message>)
    ensures
        failed_lint_count(ms) >= failing(ms).len(),
        failed_lint_count(ms) == 0 <==> failing(ms).len() == 0,
    decreases ms.len(),
{
    reveal(Seq::filter);
    if ms.len() > 0 {
        lemma_counters_agree(ms.drop_last());
    }
}

/// The failing-rule count is a sum over the blocks: the count of a file is
/// the sum of the counts of its parts, taken in any split.
pub proof fn lemma_lint_count_additive(a: Seq<Message>, b: Seq<Message>)
    ensures
        failed_lint_count(a + b) == failed_lint_count(a) + failed_lint_count(b),
    decreases b.len(),
{
    if b.len() == 0 {
        assert(a + b =~= a);
    } else {
        lemma_lint_count_additive(a, b.drop_last());
        assert((a + b).drop_last() =~= a + b.drop_last());
        assert((a + b).last() == b.last());
    }
}

/// The failing messages of a file are the failing messages of its parts, in
/// order: the failed-block counter is a sum over the blocks too.
pub proof fn lemma_failing_additive(a: Seq<Message>, b: Seq<Message>)
    ensures
        failing(a + b) == failing(a) + failing(b),
{
    Seq::filter_distributes_over_add(a, b, msg_fails());
}

/// An empty Content checks clean: both failure counters are zero, so
/// whitespace-only input, which parses to an empty Content, always passes.
pub proof fn lemma_empty_content_checks_clean(ms: Seq<Message>)
    requires
        ms.len() == 0,
    ensures
        failing(ms).len() == 0,
        failed_lint_count(ms) == 0,
{
    reveal(Seq::filter);
}

/// The file-level verdict of a failed check.
#[derive(Debug, PartialEq, Eq, Structural, Clone, Copy)]
pub struct CheckSummary {
    /// How many messages were checked.
    pub total: i32,
    /// How many messages had at least one failing rule.
    pub failed_messages: i32,
    /// How many rules failed, over all messages.
    pub failed_lints: i32,
}

/// The parsed messages of one input file, in order of appearance.
#[derive(Debug)]
pub struct Content {
    pub messages: Vec<Message>,
}

impl View for Content {
    type V = Seq<Message>;

    open spec fn view(&self) -> Seq<Message> {
        self.messages@
    }
}

impl Content {
    /// Parses raw text.  Whitespace-only input is an empty `Content`;
    /// otherwise every blank-line-separated span must parse as a message,
    /// in order, and the first span that does not decides the error.
    pub fn from_str(s: &str) -> (r: Result<Content, ParseError>)
        ensures
            all_ws(s@) ==> r is Ok && (r->Ok_0)@.len() == 0,
            !all_ws(s@) ==> {
                let spans = split_blocks(s@);
                &&& (r is Ok <==> (forall|i: int|
                    0 <= i < spans.len() ==> span_err(#[trigger] spans[i]) is None))
                &&& (r is Ok ==> {
                    let c = (r->Ok_0)@;
                    &&& c.len() == spans.len()
                    &&& forall|i: int|
                        0 <= i < c.len() ==> (#[trigger] c[i]).id as int == span_id(spans[i])
                            && c[i].content@ == span_text(spans[i])
                })
                &&& (r is Err ==> exists|i: int|
                    0 <= i < spans.len() && (#[trigger] span_err(spans[i])) == Some(r->Err_0) && (
                    forall|j: int| 0 <= j < i ==> span_err(spans[j]) is None))
            },
    {
        let cs = chars_vec(s);
        if is_all_ws(&cs) {
            return Ok(Content { messages: Vec::new() });
        }
        let ranges = block_ranges(&cs);
        let mut messages: Vec<Message> = Vec::new();
        let mut i: usize = 0;
        while i < ranges.len()
            invariant
                i <= ranges@.len(),
                cs@ == s@,
                !all_ws(s@),
                ranges@.len() == split_blocks(s@).len(),
                forall|k: int|
                    0 <= k < ranges@.len() ==> {
                        &&& (#[trigger] ranges@[k]).0 <= ranges@[k].1 <= s@.len()
                        &&& s@.subrange(ranges@[k].0 as int, ranges@[k].1 as int)
                            == split_blocks(s@)[k]
                    },
                messages@.len() == i,
                forall|k: int| 0 <= k < i ==> span_err(#[trigger] split_blocks(s@)[k]) is None,
                forall|k: int|
                    0 <= k < i ==> (#[trigger] messages@[k]).id as int == span_id(
                        split_blocks(s@)[k],
                    ) && messages@[k].content@ == span_text(split_blocks(s@)[k]),
            decreases ranges@.len() - i,
        {
            let range = ranges[i];
            let span = s.substring_char(range.0, range.1);
            proof {
                assert(span@ == split_blocks(s@)[i as int]);
            }
            match Message::from_str(span) {
                Ok(m) => {
                    messages.push(m);
                },
                Err(e) => {
                    proof {
                        assert(span_err(split_blocks(s@)[i as int]) == Some(e));
                    }
                    return Err(e);
                },
            }
            i = i + 1;
        }
        Ok(Content { messages })
    }

    /// The parsed messages, in order.
    pub fn iter(&self) -> (r: &Vec<Message>)
        ensures
            r@ == self@,
    {
        &self.messages
    }

    /// Checks every message in order, never stopping early, and folds the
    /// outcomes into the triple (total, failed messages, failed rules).  On
    /// success the total alone comes back and `errors` is untouched;
    /// otherwise the summary, with one failure entry per failing message
    /// appended to `errors`, in message order.
    pub fn check(&self, errors: &mut Vec<(i32, Vec<(&'static str, &'static str)>)>) -> (r: Result<
        i32,
        CheckSummary,
    >)
        requires
            15 * self@.len() <= i32::MAX as int,
        ensures
            ({
                let fm = failing(self@).len();
                let fl = failed_lint_count(self@);
                &&& (r is Ok <==> (fm == 0 && fl == 0))
                &&& (r is Ok ==> r->Ok_0 as int == self@.len() && final(errors)@ == old(errors)@)
                &&& (r is Err ==> {
                    &&& (r->Err_0).total as int == self@.len()
                    &&& (r->Err_0).failed_messages as int == fm
                    &&& (r->Err_0).failed_lints as int == fl
                })
                &&& final(errors)@.len() == old(errors)@.len() + fm
                &&& final(errors)@.take(old(errors)@.len() as int) == old(errors)@
                &&& forall|k: int|
                    0 <= k < fm ==> entry_matches(
                        #[trigger] final(errors)@[old(errors)@.len() + k],
                        failing(self@)[k],
                    )
            }),
    {
        let n = self.messages.len();
        let mut failed_messages: i32 = 0;
        let mut failed_lints: i32 = 0;
        let mut i: usize = 0;
        while i < n
            invariant
                i <= n,
                n == self@.len(),
                15 * self@.len() <= i32::MAX as int,
                failed_messages as int == failing(self@.take(i as int)).len(),
                failed_lints as int == failed_lint_count(self@.take(i as int)),
                0 <= failed_messages as int <= i,
                0 <= failed_lints as int <= 15 * i,
                errors@.len() == old(errors)@.len() + failing(self@.take(i as int)).len(),
                errors@.take(old(errors)@.len() as int) == old(errors)@,
                forall|k: int|
                    0 <= k < failing(self@.take(i as int)).len() ==> entry_matches(
                        #[trigger] errors@[old(errors)@.len() + k],
                        failing(self@.take(i as int))[k],
                    ),
            decreases n - i,
        {
            let m = &self.messages[i];
            proof {
                reveal(Seq::filter);
                lemma_failed_lints_bound(m.content@);
                lemma_counters_agree(self@.take(i as int));
                assert(self@.take(i + 1).drop_last() =~= self@.take(i as int));
                assert(self@.take(i + 1).last() == self@[i as int]);
            }
            let ghost before = errors@;
            match m.check(errors) {
                Ok(_) => {
                    proof {
                        assert(failing(self@.take(i + 1)) == failing(self@.take(i as int)));
                    }
                },
                Err(cnt) => {
                    failed_messages = failed_messages + 1;
                    failed_lints = failed_lints + (cnt as i32);
                    proof {
                        let oldlen = old(errors)@.len() as int;
                        let done = failing(self@.take(i as int));
                        assert(errors@.take(oldlen) =~= before.take(oldlen));
                        assert(failing(self@.take(i + 1)) == done.push(self@[i as int]));
                        assert forall|k: int|
                            0 <= k < failing(self@.take(i + 1)).len() implies entry_matches(
                            #[trigger] errors@[oldlen + k],
                            failing(self@.take(i + 1))[k],
                        ) by {
                            if k < done.len() {
                                assert(errors@.take(before.len() as int)[oldlen + k] == errors@[
                                    oldlen + k]);
                                assert(before[oldlen + k] == errors@[oldlen + k]);
                                assert(failing(self@.take(i + 1))[k] == done[k]);
                            } else {
                                assert(k == done.len());
                                assert(failing(self@.take(i + 1))[k] == self@[i as int]);
                                assert(errors@[oldlen + k] == errors@.last());
                                assert(entry_matches(errors@.last(), self@[i as int]));
                            }
                        }
                    }
                },
            }
            i = i + 1;
        }
        proof {
            assert(self@.take(n as int) =~= self@);
            lemma_counters_agree(self@);
        }
        if failed_messages == 0 && failed_lints == 0 {
            Ok(n as i32)
        } else {
            Err(CheckSummary { total: n as i32, failed_messages, failed_lints })
        }
    }
}

} // verus!
