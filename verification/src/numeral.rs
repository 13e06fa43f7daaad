//! Verified decimal parsing of block identifiers.
//!
//! The accepted shape is exactly the one `i32::from_str` accepts: an
//! optional `+` or `-` sign followed by one or more ASCII digits, with the
//! value inside the `i32` range.

use vstd::prelude::*;

verus! {

pub open spec fn is_digit_char(c: char) -> bool {
    '0' <= c && c <= '9'
}

pub open spec fn digit_val(c: char) -> int {
    c as int - '0' as int
}

pub open spec fn all_digits(s: Seq<char>) -> bool {
    forall|i: int| 0 <= i < s.len() ==> is_digit_char(#[trigger] s[i])
}

/// The value of a digit string, most significant digit first.
pub open spec fn digits_val(s: Seq<char>) -> int
    decreases s.len(),
{
    if s.len() == 0 {
        0
    } else {
        digits_val(s.drop_last()) * 10 + digit_val(s.last())
    }
}

/// `s` is an optional sign followed by at least one digit.
pub open spec fn is_int_literal(s: Seq<char>) -> bool {
    if s.len() > 0 && (s[0] == '+' || s[0] == '-') {
        s.len() > 1 && all_digits(s.skip(1))
    } else {
        s.len() > 0 && all_digits(s)
    }
}

/// The signed value of an integer literal.
pub open spec fn int_of(s: Seq<char>) -> int {
    if s.len() > 0 && s[0] == '-' {
        -digits_val(s.skip(1))
    } else if s.len() > 0 && s[0] == '+' {
        digits_val(s.skip(1))
    } else {
        digits_val(s)
    }
}

/// `s` parses as an `i32`, exactly when `i32::from_str` accepts it.
pub open spec fn parses_to_i32(s: Seq<char>) -> bool {
    is_int_literal(s) && i32::MIN <= int_of(s) <= i32::MAX
}

proof fn lemma_digits_val_step(s: Seq<char>, k: int)
    requires
        0 <= k < s.len(),
    ensures
        digits_val(s.take(k + 1)) == digits_val(s.take(k)) * 10 + digit_val(s[k]),
{
    assert(s.take(k + 1).drop_last() =~= s.take(k));
    assert(s.take(k + 1).last() == s[k]);
}

/// Appending digits never decreases a nonnegative value.
proof fn lemma_digits_val_grows(s: Seq<char>, k: int)
    requires
        0 <= k <= s.len(),
        digits_val(s.take(k)) >= 0,
        forall|j: int| k <= j < s.len() ==> is_digit_char(#[trigger] s[j]),
    ensures
        digits_val(s) >= digits_val(s.take(k)),
    decreases s.len() - k,
{
    if k == s.len() {
        assert(s.take(k) =~= s);
    } else {
        lemma_digits_val_step(s, k);
        lemma_digits_val_grows(s, k + 1);
    }
}

/// Parses `t[from..to]` as an `i32`; `None` exactly when `i32::from_str`
/// would fail on that span.
pub fn parse_i32(t: &Vec<char>, from: usize, to: usize) -> (r: Option<i32>)
    requires
        from <= to <= t@.len(),
    ensures
        ({
            let h = t@.subrange(from as int, to as int);
            match r {
                Some(v) => parses_to_i32(h) && v as int == int_of(h),
                None => !parses_to_i32(h),
            }
        }),
{
    let ghost h = t@.subrange(from as int, to as int);
    if from == to {
        return None;
    }
    let c0 = t[from];
    let neg = c0 == '-';
    let ds = if c0 == '-' || c0 == '+' {
        from + 1
    } else {
        from
    };
    if ds == to {
        // a bare sign has no digits
        return None;
    }
    let ghost run = t@.subrange(ds as int, to as int);
    proof {
        assert(h[0] == t@[from as int]);
        if ds > from {
            assert(run =~= h.skip(1));
        } else {
            assert(run =~= h);
        }
    }
    let mut acc: u64 = 0;
    let mut i: usize = ds;
    while i < to
        invariant
            from <= ds <= i <= to <= t@.len(),
            ds <= from + 1,
            ds < to,
            h == t@.subrange(from as int, to as int),
            run == t@.subrange(ds as int, to as int),
            neg <==> h[0] == '-',
            ds == from + 1 <==> (h[0] == '+' || h[0] == '-'),
            ds == from + 1 ==> run == h.skip(1),
            ds == from ==> run == h,
            acc as int == digits_val(run.take(i - ds)),
            acc <= 0x8000_0000u64,
            forall|j: int| 0 <= j < i - ds ==> is_digit_char(#[trigger] run[j]),
        decreases to - i,
    {
        let c = t[i];
        proof {
            assert(run[i - ds] == t@[i as int]);
        }
        if !('0' <= c && c <= '9') {
            proof {
                assert(!is_digit_char(run[i - ds]));
                assert(!all_digits(run));
            }
            return None;
        }
        let d: u32 = c as u32 - 48;
        proof {
            lemma_digits_val_step(run, i - ds);
        }
        let next: u64 = acc * 10 + d as u64;
        i = i + 1;
        if next > 0x8000_0000u64 {
            // the magnitude already exceeds 2^31: if the remaining characters
            // are digits the value is out of range, and otherwise the span is
            // no integer literal at all
            proof {
                assert(h[0] == t@[from as int]);
                if all_digits(run) {
                    assert(digits_val(run.take(i - ds)) == next as int);
                    lemma_digits_val_grows(run, i - ds);
                    assert(digits_val(run) > 0x8000_0000);
                    if neg {
                        assert(int_of(h) == -digits_val(run));
                    } else {
                        assert(int_of(h) == digits_val(run));
                    }
                } else {
                    assert(!is_int_literal(h));
                }
            }
            return None;
        }
        acc = next;
    }
    proof {
        assert(run.take(to - ds) =~= run);
        assert(all_digits(run));
        assert(digits_val(run) == acc as int);
    }
    if neg {
        let v: i64 = -(acc as i64);
        Some(v as i32)
    } else {
        if acc > 0x7fff_ffffu64 {
            // 2^31 is one past i32::MAX for an unsigned literal
            return None;
        }
        Some(acc as i32)
    }
}

} // verus!
