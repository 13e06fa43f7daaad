//! The character-level model of subtitle text.
//!
//! Rules and parsing are stated over `Seq<char>`.  This module defines the
//! character classes the rules use, the exact meaning of splitting text into
//! lines (the semantics of `str::lines`: terminators are `\n` or `\r\n`, a
//! final terminator opens no extra line) and into blank-line-separated
//! blocks, and verified executable counterparts for each.

use vstd::prelude::*;
use vstd::string::StrSliceExecFns;

verus! {

/// The Unicode `White_Space` characters, the class `char::is_whitespace`
/// accepts.
pub open spec fn is_ws_char(c: char) -> bool {
    ||| c == ' '
    ||| ('\u{09}' <= c && c <= '\u{0d}')
    ||| c == '\u{85}'
    ||| c == '\u{a0}'
    ||| c == '\u{1680}'
    ||| ('\u{2000}' <= c && c <= '\u{200a}')
    ||| c == '\u{2028}'
    ||| c == '\u{2029}'
    ||| c == '\u{202f}'
    ||| c == '\u{205f}'
    ||| c == '\u{3000}'
}

pub fn is_ws(c: char) -> (r: bool)
    ensures
        r == is_ws_char(c),
{
    c == ' ' || ('\u{09}' <= c && c <= '\u{0d}') || c == '\u{85}' || c == '\u{a0}'
        || c == '\u{1680}' || ('\u{2000}' <= c && c <= '\u{200a}') || c == '\u{2028}'
        || c == '\u{2029}' || c == '\u{202f}' || c == '\u{205f}' || c == '\u{3000}'
}

/// The punctuation characters that count as half-width and may not repeat.
pub open spec fn is_punct_char(c: char) -> bool {
    c == '.' || c == ',' || c == '?' || c == '!' || c == '？' || c == '…' || c == '！'
}

pub fn is_punct(c: char) -> (r: bool)
    ensures
        r == is_punct_char(c),
{
    c == '.' || c == ',' || c == '?' || c == '!' || c == '？' || c == '…' || c == '！'
}

/// Every character of `t` is whitespace; true of the empty text.
pub open spec fn all_ws(t: Seq<char>) -> bool {
    forall|i: int| 0 <= i < t.len() ==> is_ws_char(#[trigger] t[i])
}

/// The characters of a `&str`, as a vector.
pub fn chars_vec(s: &str) -> (r: Vec<char>)
    ensures
        r@ == s@,
{
    let n = s.unicode_len();
    let mut r: Vec<char> = Vec::new();
    let mut i: usize = 0;
    while i < n
        invariant
            i <= n,
            n == s@.len(),
            r@ == s@.take(i as int),
        decreases n - i,
    {
        let c = s.get_char(i);
        r.push(c);
        i = i + 1;
        proof {
            assert(r@ =~= s@.take(i as int));
        }
    }
    proof {
        assert(r@ =~= s@);
    }
    r
}

pub fn is_all_ws(t: &Vec<char>) -> (r: bool)
    ensures
        r == all_ws(t@),
{
    let mut i: usize = 0;
    while i < t.len()
        invariant
            i <= t@.len(),
            forall|j: int| 0 <= j < i ==> is_ws_char(#[trigger] t@[j]),
        decreases t@.len() - i,
    {
        if !is_ws(t[i]) {
            return false;
        }
        i = i + 1;
    }
    true
}

/// Splitting on every `'\n'`, keeping empty parts: the result always has one
/// part more than the text has newlines.
pub open spec fn split_nl(s: Seq<char>) -> Seq<Seq<char>>
    decreases s.len(),
{
    if s.len() == 0 {
        seq![Seq::<char>::empty()]
    } else if s[0] == '\n' {
        seq![Seq::<char>::empty()] + split_nl(s.drop_first())
    } else {
        let rest = split_nl(s.drop_first());
        seq![seq![s[0]] + rest[0]] + rest.skip(1)
    }
}

pub proof fn lemma_split_nl_len(s: Seq<char>)
    ensures
        split_nl(s).len() >= 1,
    decreases s.len(),
{
    if s.len() == 0 {
    } else {
        lemma_split_nl_len(s.drop_first());
    }
}

pub proof fn lemma_split_nl_no_nl(s: Seq<char>)
    requires
        forall|j: int| 0 <= j < s.len() ==> s[j] != '\n',
    ensures
        split_nl(s) == seq![s],
    decreases s.len(),
{
    if s.len() == 0 {
        assert(split_nl(s) =~~= seq![s]);
    } else {
        lemma_split_nl_no_nl(s.drop_first());
        assert((seq![s[0]] + s.drop_first()) =~= s);
        assert(split_nl(s) =~~= seq![s]);
    }
}

pub proof fn lemma_split_nl_first(s: Seq<char>, i: int)
    requires
        0 <= i < s.len(),
        s[i] == '\n',
        forall|j: int| 0 <= j < i ==> s[j] != '\n',
    ensures
        split_nl(s) == seq![s.take(i)] + split_nl(s.skip(i + 1)),
    decreases i,
{
    if i == 0 {
        assert(s.drop_first() =~= s.skip(1));
        assert(s.take(0) =~= Seq::<char>::empty());
        assert(split_nl(s) =~~= seq![s.take(0)] + split_nl(s.skip(1)));
    } else {
        let d = s.drop_first();
        lemma_split_nl_first(d, i - 1);
        assert(d.skip(i) =~= s.skip(i + 1));
        assert((seq![s[0]] + d.take(i - 1)) =~= s.take(i));
        let rest = split_nl(d);
        assert(rest.skip(1) =~= split_nl(s.skip(i + 1)));
        assert(split_nl(s) =~~= seq![s.take(i)] + split_nl(s.skip(i + 1)));
    }
}

/// When a suffix of `all` is a known part followed by a remainder, the part
/// stands at the border index and the remainder is the suffix one further on.
proof fn lemma_parts_shift<A>(all: Seq<A>, n: int, x: A, rest: Seq<A>)
    requires
        0 <= n <= all.len(),
        all.skip(n) == seq![x] + rest,
    ensures
        n < all.len(),
        all[n] == x,
        all.skip(n + 1) == rest,
        all.len() == n + 1 + rest.len(),
{
    assert(all.skip(n).len() == all.len() - n);
    assert(all.skip(n)[0] == all[n]);
    assert((seq![x] + rest)[0] == x);
    assert forall|k: int| 0 <= k < rest.len() implies all.skip(n + 1)[k] == rest[k] by {
        assert(all.skip(n + 1)[k] == all[n + 1 + k]);
        assert(all.skip(n)[k + 1] == all[n + k + 1]);
        assert((seq![x] + rest)[k + 1] == rest[k]);
    }
    assert(all.skip(n + 1) =~= rest);
}

/// Splits `t[..end]` on every `'\n'`, keeping empty parts.
pub fn split_nl_vec(t: &Vec<char>, end: usize) -> (r: Vec<Vec<char>>)
    requires
        end <= t@.len(),
    ensures
        r@.len() == split_nl(t@.take(end as int)).len(),
        forall|k: int|
            0 <= k < r@.len() ==> (#[trigger] r@[k])@ == split_nl(t@.take(end as int))[k],
{
    let ghost s = t@.take(end as int);
    let mut out: Vec<Vec<char>> = Vec::new();
    let mut cur: Vec<char> = Vec::new();
    let mut i: usize = 0;
    proof {
        assert(s.skip(0) =~= s);
    }
    while i < end
        invariant
            i <= end,
            end <= t@.len(),
            s == t@.take(end as int),
            s.len() == end,
            cur@.len() <= i,
            cur@ == s.subrange(i - cur@.len(), i as int),
            forall|j: int| i - cur@.len() <= j < i ==> s[j] != '\n',
            out@.len() <= split_nl(s).len(),
            forall|k: int| 0 <= k < out@.len() ==> (#[trigger] out@[k])@ == split_nl(s)[k],
            split_nl(s).skip(out@.len() as int) == split_nl(s.skip(i - cur@.len())),
        decreases end - i,
    {
        let c = t[i];
        proof {
            assert(s[i as int] == t@[i as int]);
        }
        if c == '\n' {
            let ghost st = i - cur@.len();
            let ghost prev = out@.len() as int;
            proof {
                let u = s.skip(st);
                lemma_split_nl_first(u, i - st);
                assert(u.take(i - st) =~= s.subrange(st, i as int));
                assert(u.skip(i - st + 1) =~= s.skip(i + 1));
                lemma_parts_shift(
                    split_nl(s),
                    prev,
                    s.subrange(st, i as int),
                    split_nl(s.skip(i + 1)),
                );
            }
            out.push(cur);
            cur = Vec::new();
            i = i + 1;
            proof {
                assert(cur@ =~= s.subrange(i as int, i as int));
            }
        } else {
            cur.push(c);
            i = i + 1;
            proof {
                assert(cur@ =~= s.subrange(i - cur@.len(), i as int));
            }
        }
    }
    proof {
        let st = i - cur@.len();
        let u = s.skip(st);
        lemma_split_nl_no_nl(u);
        assert(u =~= s.subrange(st, i as int));
        assert((seq![cur@] + Seq::<Seq<char>>::empty()) =~= seq![cur@]);
        lemma_parts_shift(split_nl(s), out@.len() as int, cur@, Seq::empty());
    }
    out.push(cur);
    out
}

/// One trailing carriage return is dropped: the `\r` of a `\r\n` terminator
/// belongs to the terminator, not to the line.
pub open spec fn strip_cr(p: Seq<char>) -> Seq<char> {
    if p.len() > 0 && p.last() == '\r' {
        p.drop_last()
    } else {
        p
    }
}

fn strip_cr_vec(p: Vec<char>) -> (r: Vec<char>)
    ensures
        r@ == strip_cr(p@),
{
    let mut p = p;
    if p.len() > 0 && p[p.len() - 1] == '\r' {
        let _last = p.pop();
        p
    } else {
        p
    }
}

/// The lines of a text, as `str::lines` yields them: split at `'\n'`, strip
/// the `'\r'` of a `\r\n` terminator, and let a final terminator close the
/// last line rather than open an empty one.
pub open spec fn lines_of(t: Seq<char>) -> Seq<Seq<char>> {
    if t.len() == 0 {
        Seq::empty()
    } else if t.last() == '\n' {
        split_nl(t.drop_last()).map_values(|p: Seq<char>| strip_cr(p))
    } else {
        let parts = split_nl(t);
        parts.take(parts.len() - 1).map_values(|p: Seq<char>| strip_cr(p)).push(parts.last())
    }
}

/// The lines of a text held as a character vector.
pub fn lines_vec(t: &Vec<char>) -> (r: Vec<Vec<char>>)
    ensures
        r@.len() == lines_of(t@).len(),
        forall|k: int| 0 <= k < r@.len() ==> (#[trigger] r@[k])@ == lines_of(t@)[k],
{
    let mut out: Vec<Vec<char>> = Vec::new();
    if t.len() == 0 {
        return out;
    }
    let ends_nl = t[t.len() - 1] == '\n';
    let end = if ends_nl {
        t.len() - 1
    } else {
        t.len()
    };
    proof {
        if ends_nl {
            assert(t@.take(end as int) =~= t@.drop_last());
        } else {
            assert(t@.take(end as int) =~= t@);
        }
        lemma_split_nl_len(t@.take(end as int));
    }
    let ghost parts = split_nl(t@.take(end as int));
    let mut raw = split_nl_vec(t, end);
    let n = raw.len();
    proof {
        assert(lines_of(t@).len() == n);
    }
    while raw.len() > 0
        invariant
            n == parts.len(),
            out@.len() + raw@.len() == n,
            lines_of(t@).len() == n,
            forall|j: int| 0 <= j < raw@.len() ==> (#[trigger] raw@[j])@ == parts[out@.len() + j],
            forall|k: int| 0 <= k < out@.len() ==> (#[trigger] out@[k])@ == lines_of(t@)[k],
            ends_nl ==> lines_of(t@) == parts.map_values(|p: Seq<char>| strip_cr(p)),
            !ends_nl ==> lines_of(t@) == parts.take(n - 1).map_values(
                |p: Seq<char>| strip_cr(p),
            ).push(parts.last()),
        decreases raw@.len(),
    {
        let p = raw.remove(0);
        let last_raw = raw.len() == 0 && !ends_nl;
        if last_raw {
            out.push(p);
        } else {
            out.push(strip_cr_vec(p));
        }
    }
    out
}

/// A blank-line separator (two consecutive newlines) begins at `j`.
pub open spec fn is_blank_sep(s: Seq<char>, j: int) -> bool {
    0 <= j && j + 1 < s.len() && s[j] == '\n' && s[j + 1] == '\n'
}

/// Splitting on the two-newline separator, leftmost match first, as
/// `str::split("\n\n")` does.
pub open spec fn split_blocks(s: Seq<char>) -> Seq<Seq<char>>
    decreases s.len(),
{
    if s.len() >= 2 && s[0] == '\n' && s[1] == '\n' {
        seq![Seq::<char>::empty()] + split_blocks(s.skip(2))
    } else if s.len() == 0 {
        seq![Seq::<char>::empty()]
    } else {
        let rest = split_blocks(s.drop_first());
        seq![seq![s[0]] + rest[0]] + rest.skip(1)
    }
}

pub proof fn lemma_split_blocks_no_sep(s: Seq<char>)
    requires
        forall|j: int| !is_blank_sep(s, j),
    ensures
        split_blocks(s) == seq![s],
    decreases s.len(),
{
    if s.len() >= 2 && s[0] == '\n' && s[1] == '\n' {
        assert(is_blank_sep(s, 0));
    } else if s.len() == 0 {
        assert(split_blocks(s) =~~= seq![s]);
    } else {
        let d = s.drop_first();
        assert(forall|j: int| is_blank_sep(d, j) ==> is_blank_sep(s, j + 1));
        lemma_split_blocks_no_sep(d);
        assert((seq![s[0]] + d) =~= s);
        assert(split_blocks(s) =~~= seq![s]);
    }
}

pub proof fn lemma_split_blocks_first(s: Seq<char>, i: int)
    requires
        is_blank_sep(s, i),
        forall|j: int| 0 <= j < i ==> !is_blank_sep(s, j),
    ensures
        split_blocks(s) == seq![s.take(i)] + split_blocks(s.skip(i + 2)),
    decreases i,
{
    if i == 0 {
        assert(s.take(0) =~= Seq::<char>::empty());
        assert(split_blocks(s) =~~= seq![s.take(0)] + split_blocks(s.skip(2)));
    } else {
        assert(!is_blank_sep(s, 0));
        let d = s.drop_first();
        assert(is_blank_sep(d, i - 1));
        assert(forall|j: int| 0 <= j < i - 1 ==> is_blank_sep(d, j) ==> is_blank_sep(s, j + 1));
        lemma_split_blocks_first(d, i - 1);
        assert(d.skip(i + 1) =~= s.skip(i + 2));
        assert((seq![s[0]] + d.take(i - 1)) =~= s.take(i));
        let rest = split_blocks(d);
        assert(rest.skip(1) =~= split_blocks(s.skip(i + 2)));
        assert(split_blocks(s) =~~= seq![s.take(i)] + split_blocks(s.skip(i + 2)));
    }
}

/// The spans of `t` between blank-line separators, as index ranges into `t`.
pub fn block_ranges(t: &Vec<char>) -> (r: Vec<(usize, usize)>)
    ensures
        r@.len() == split_blocks(t@).len(),
        forall|k: int|
            0 <= k < r@.len() ==> {
                &&& (#[trigger] r@[k]).0 <= r@[k].1 <= t@.len()
                &&& t@.subrange(r@[k].0 as int, r@[k].1 as int) == split_blocks(t@)[k]
            },
{
    let s_len = t.len();
    let mut out: Vec<(usize, usize)> = Vec::new();
    let mut start: usize = 0;
    let mut i: usize = 0;
    proof {
        assert(t@.skip(0) =~= t@);
    }
    while i < s_len
        invariant
            start <= i <= s_len,
            s_len == t@.len(),
            forall|j: int| start <= j < i ==> !is_blank_sep(t@, j),
            out@.len() <= split_blocks(t@).len(),
            forall|k: int|
                0 <= k < out@.len() ==> {
                    &&& (#[trigger] out@[k]).0 <= out@[k].1 <= t@.len()
                    &&& t@.subrange(out@[k].0 as int, out@[k].1 as int) == split_blocks(t@)[k]
                },
            split_blocks(t@).skip(out@.len() as int) == split_blocks(t@.skip(start as int)),
        decreases s_len - i,
    {
        if i + 1 < s_len && t[i] == '\n' && t[i + 1] == '\n' {
            let ghost prev = out@.len() as int;
            proof {
                let u = t@.skip(start as int);
                assert(is_blank_sep(u, i - start));
                assert(forall|j: int|
                    0 <= j < i - start ==> is_blank_sep(u, j) ==> is_blank_sep(t@, j + start));
                lemma_split_blocks_first(u, i - start);
                assert(u.take(i - start) =~= t@.subrange(start as int, i as int));
                assert(u.skip(i - start + 2) =~= t@.skip(i + 2));
                lemma_parts_shift(
                    split_blocks(t@),
                    prev,
                    t@.subrange(start as int, i as int),
                    split_blocks(t@.skip(i + 2)),
                );
            }
            out.push((start, i));
            i = i + 2;
            start = i;
        } else {
            i = i + 1;
        }
    }
    proof {
        let u = t@.skip(start as int);
        assert(forall|j: int| is_blank_sep(u, j) ==> is_blank_sep(t@, j + start));
        lemma_split_blocks_no_sep(u);
        assert(t@.subrange(start as int, s_len as int) =~= u);
        assert((seq![u] + Seq::<Seq<char>>::empty()) =~= seq![u]);
        lemma_parts_shift(split_blocks(t@), out@.len() as int, u, Seq::empty());
    }
    out.push((start, s_len));
    out
}

/// Some character of `t` is a newline.
pub open spec fn has_nl(t: Seq<char>) -> bool {
    exists|i: int| 0 <= i < t.len() && t[i] == '\n'
}

/// The index of the first newline; meaningful only when `has_nl(t)`.
pub open spec fn first_nl(t: Seq<char>) -> int
    decreases t.len(),
{
    if t.len() == 0 {
        0
    } else if t[0] == '\n' {
        0
    } else {
        1 + first_nl(t.drop_first())
    }
}

pub proof fn lemma_first_nl_is(t: Seq<char>, i: int)
    requires
        0 <= i < t.len(),
        t[i] == '\n',
        forall|j: int| 0 <= j < i ==> t[j] != '\n',
    ensures
        first_nl(t) == i,
        has_nl(t),
    decreases i,
{
    if i == 0 {
    } else {
        let d = t.drop_first();
        lemma_first_nl_is(d, i - 1);
    }
}

/// Finds the first newline of `t`, if any.
pub fn find_nl(t: &Vec<char>) -> (r: Option<usize>)
    ensures
        match r {
            Some(k) => has_nl(t@) && k as int == first_nl(t@) && k < t@.len(),
            None => !has_nl(t@),
        },
{
    let mut i: usize = 0;
    while i < t.len()
        invariant
            i <= t@.len(),
            forall|j: int| 0 <= j < i ==> t@[j] != '\n',
        decreases t@.len() - i,
    {
        if t[i] == '\n' {
            proof {
                lemma_first_nl_is(t@, i as int);
            }
            return Some(i);
        }
        i = i + 1;
    }
    None
}

} // verus!
