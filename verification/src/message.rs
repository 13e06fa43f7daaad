//! One numbered subtitle block and its check against the catalog.

use vstd::prelude::*;
use vstd::string::StrSliceExecFns;

use crate::lints::{spec_failed_lints, Lint, Lints};
use crate::numeral::{int_of, parse_i32, parses_to_i32};
use crate::text::{chars_vec, find_nl, first_nl, has_nl};

verus! {

/// Why raw text failed to parse into messages.
#[derive(Debug, PartialEq, Eq, Structural, Clone, Copy)]
pub enum ParseError {
    /// A block span has no newline separating the id from the text.
    MissingNewline,
    /// The first line of a block span is not a valid `i32`.
    InvalidId,
}

/// One numbered block: an id and the text the rules are checked against.
#[derive(Debug)]
pub struct Message {
    pub id: i32,
    pub content: String,
}

/// `e` is the failure entry for `m`: its id, with the code and message of
/// every failed rule, in catalog order.
pub open spec fn entry_matches(e: (i32, Vec<(&'static str, &'static str)>), m: Message) -> bool {
    let failed = spec_failed_lints(m.content@);
    &&& e.0 == m.id
    &&& e.1@.len() == failed.len()
    &&& forall|i: int|
        0 <= i < failed.len() ==> (#[trigger] e.1@[i]).0@ == failed[i].spec_code() && e.1@[i].1@
            == failed[i].spec_message()
}

impl Message {
    /// Parses one block span: everything before the first newline must be an
    /// `i32` id, and everything after it is the text, kept verbatim.
    pub fn from_str(s: &str) -> (r: Result<Message, ParseError>)
        ensures
            !has_nl(s@) ==> r == Err::<Message, ParseError>(ParseError::MissingNewline),
            has_nl(s@) && !parses_to_i32(s@.take(first_nl(s@))) ==> r == Err::<
                Message,
                ParseError,
            >(ParseError::InvalidId),
            has_nl(s@) && parses_to_i32(s@.take(first_nl(s@))) ==> {
                &&& r is Ok
                &&& (r->Ok_0).id as int == int_of(s@.take(first_nl(s@)))
                &&& (r->Ok_0).content@ == s@.skip(first_nl(s@) + 1)
            },
    {
        let cs = chars_vec(s);
        match find_nl(&cs) {
            None => Err(ParseError::MissingNewline),
            Some(k) => {
                proof {
                    assert(cs@.subrange(0, first_nl(s@)) =~= s@.take(first_nl(s@)));
                }
                match parse_i32(&cs, 0, k) {
                    None => Err(ParseError::InvalidId),
                    Some(id) => {
                        let n = s.unicode_len();
                        let tail = s.substring_char(k + 1, n);
                        proof {
                            assert(tail@ =~= s@.skip(first_nl(s@) + 1));
                        }
                        let content = tail.to_owned();
                        Ok(Message { id, content })
                    },
                }
            },
        }
    }

    /// Checks this message's text against every catalog rule.  A passing
    /// message leaves `errors` alone; a failing one appends its failure
    /// entry and reports how many rules failed.
    pub fn check(&self, errors: &mut Vec<(i32, Vec<(&'static str, &'static str)>)>) -> (r: Result<
        (),
        usize,
    >)
        ensures
            ({
                let failed = spec_failed_lints(self.content@);
                if failed.len() == 0 {
                    r == Ok::<(), usize>(()) && final(errors)@ == old(errors)@
                } else {
                    &&& r == Err::<(), usize>(failed.len() as usize)
                    &&& final(errors)@.len() == old(errors)@.len() + 1
                    &&& final(errors)@.take(old(errors)@.len() as int) == old(errors)@
                    &&& entry_matches(final(errors)@.last(), *self)
                }
            }),
    {
        let failed = Lints::check_on(self.content.as_str());
        if failed.len() == 0 {
            Ok(())
        } else {
            let mut pairs: Vec<(&'static str, &'static str)> = Vec::new();
            let mut i: usize = 0;
            while i < failed.len()
                invariant
                    i <= failed@.len(),
                    failed@ == spec_failed_lints(self.content@),
                    pairs@.len() == i,
                    forall|j: int|
                        0 <= j < i ==> (#[trigger] pairs@[j]).0@ == failed@[j].spec_code()
                            && pairs@[j].1@ == failed@[j].spec_message(),
                decreases failed@.len() - i,
            {
                let l = &failed[i];
                pairs.push((l.code(), l.message()));
                i = i + 1;
            }
            let n = failed.len();
            errors.push((self.id, pairs));
            proof {
                assert(errors@.take(old(errors)@.len() as int) =~= old(errors)@);
            }
            Err(n)
        }
    }
}

} // verus!
