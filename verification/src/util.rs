//! Output-shaping helpers for chat front ends: trimming and wrapping long
//! lines to a width, and truncating to a line budget.

use crate::spec_views;
use crate::text::chars_to_string;
use crate::textcfg::{spec_split_lines, split_lines};
use vstd::prelude::*;

verus! {

/// ASCII whitespace, as trimmed from the ends of each output line.
pub open spec fn spec_is_blank(c: char) -> bool {
    c == ' ' || c == '\t' || c == '\n' || c == '\r' || c == '\u{b}' || c == '\u{c}'
}

fn is_blank(c: char) -> (r: bool)
    ensures
        r == spec_is_blank(c),
{
    c == ' ' || c == '\t' || c == '\n' || c == '\r' || c == '\u{b}' || c == '\u{c}'
}

/// The sequence without its leading whitespace.
pub open spec fn spec_trim_start(s: Seq<char>) -> Seq<char>
    decreases s.len(),
{
    if s.len() > 0 && spec_is_blank(s[0]) {
        spec_trim_start(s.drop_first())
    } else {
        s
    }
}

/// The sequence without its trailing whitespace.
pub open spec fn spec_trim_end(s: Seq<char>) -> Seq<char>
    decreases s.len(),
{
    if s.len() > 0 && spec_is_blank(s.last()) {
        spec_trim_end(s.drop_last())
    } else {
        s
    }
}

/// The sequence without leading and trailing whitespace.
pub open spec fn spec_trim(s: Seq<char>) -> Seq<char> {
    spec_trim_end(spec_trim_start(s))
}

proof fn lemma_trim_start_at(s: Seq<char>, k: int)
    requires
        0 <= k <= s.len(),
        forall|j: int| 0 <= j < k ==> spec_is_blank(#[trigger] s[j]),
        k == s.len() || !spec_is_blank(s[k]),
    ensures
        spec_trim_start(s) == s.skip(k),
    decreases k,
{
    if k == 0 {
        assert(s.skip(0) =~= s);
    } else {
        assert(spec_is_blank(s[0]));
        assert(forall|j: int|
            0 <= j < k - 1 ==> spec_is_blank(#[trigger] s.drop_first()[j]));
        lemma_trim_start_at(s.drop_first(), k - 1);
        assert(s.drop_first().skip(k - 1) =~= s.skip(k));
    }
}

proof fn lemma_trim_end_at(s: Seq<char>, k: int)
    requires
        0 <= k <= s.len(),
        forall|j: int| k <= j < s.len() ==> spec_is_blank(#[trigger] s[j]),
        k == 0 || !spec_is_blank(s[k - 1]),
    ensures
        spec_trim_end(s) == s.take(k),
    decreases s.len(),
{
    if k == s.len() {
        if s.len() > 0 {
            assert(!spec_is_blank(s.last()));
        }
        assert(s.take(k) =~= s);
    } else {
        assert(spec_is_blank(s.last()));
        assert(forall|j: int|
            k <= j < s.drop_last().len() ==> spec_is_blank(#[trigger] s.drop_last()[j]));
        lemma_trim_end_at(s.drop_last(), k);
        assert(s.drop_last().take(k) =~= s.take(k));
    }
}

/// Trims whitespace from both ends.
fn trim(v: &Vec<char>) -> (r: Vec<char>)
    ensures
        r@ == spec_trim(v@),
{
    let mut a: usize = 0;
    while a < v.len() && is_blank(v[a])
        invariant
            0 <= a <= v@.len(),
            forall|j: int| 0 <= j < a ==> spec_is_blank(#[trigger] v@[j]),
        decreases v@.len() - a,
    {
        a += 1;
    }
    proof {
        lemma_trim_start_at(v@, a as int);
    }
    let mut b: usize = v.len();
    while b > a && is_blank(v[b - 1])
        invariant
            a <= b <= v@.len(),
            forall|j: int| b <= j < v@.len() ==> spec_is_blank(#[trigger] v@[j]),
        decreases b,
    {
        b -= 1;
    }
    proof {
        let t = v@.skip(a as int);
        assert(forall|j: int| b - a <= j < t.len() ==> spec_is_blank(#[trigger] t[j]));
        if b > a {
            assert(t[b - a - 1] == v@[b - 1]);
        }
        lemma_trim_end_at(t, b - a);
    }
    let mut r: Vec<char> = Vec::new();
    let mut i: usize = a;
    while i < b
        invariant
            a <= i <= b <= v@.len(),
            r@ == v@.subrange(a as int, i as int),
        decreases b - i,
    {
        r.push(v[i]);
        proof {
            assert(r@ =~= v@.subrange(a as int, i + 1));
        }
        i += 1;
    }
    proof {
        assert(v@.subrange(a as int, b as int) =~= v@.skip(a as int).take(b - a));
    }
    r
}

/// A line cut into pieces of exactly `w` characters, the last piece
/// shorter; an empty line yields no pieces.
pub open spec fn spec_chunks(s: Seq<char>, w: int) -> Seq<Seq<char>>
    decreases s.len(),
{
    if w < 1 || s.len() == 0 {
        Seq::empty()
    } else if s.len() <= w {
        seq![s]
    } else {
        seq![s.take(w)] + spec_chunks(s.skip(w), w)
    }
}

/// One trimmed line, wrapped: kept whole when it fits (an empty line is
/// kept), cut into `w`-character pieces otherwise.
pub open spec fn spec_wrap_line(l: Seq<char>, w: int) -> Seq<Seq<char>> {
    if l.len() == 0 {
        seq![l]
    } else {
        spec_chunks(l, w)
    }
}

/// Every line of the text, trimmed and wrapped, in order.
pub open spec fn spec_wrap_lines(ls: Seq<Seq<char>>, i: int, w: int) -> Seq<Seq<char>>
    decreases ls.len() - i,
{
    if !(0 <= i < ls.len()) {
        Seq::empty()
    } else {
        spec_wrap_line(spec_trim(ls[i]), w) + spec_wrap_lines(ls, i + 1, w)
    }
}

/// The whole output, wrapped to width `w`.
pub open spec fn spec_wrap_output(s: Seq<char>, w: int) -> Seq<Seq<char>> {
    spec_wrap_lines(spec_split_lines(s), 0, w)
}

fn wrap_one_line(out: &mut Vec<String>, line: &Vec<char>, max_len: usize)
    requires
        max_len >= 1,
    ensures
        spec_views(final(out)@) == spec_views(old(out)@) + spec_wrap_line(
            spec_trim(line@),
            max_len as int,
        ),
{
    let t = trim(line);
    let ghost t0 = t@;
    if t.len() == 0 {
        out.push(String::new());
        proof {
            assert(spec_views(out@) =~~= spec_views(old(out)@) + spec_wrap_line(
                spec_trim(line@),
                max_len as int,
            ));
        }
        return;
    }
    let mut cur = t;
    while cur.len() > max_len
        invariant
            max_len >= 1,
            cur@.len() > 0,
            spec_views(old(out)@) + spec_wrap_line(t0, max_len as int) == spec_views(out@)
                + spec_chunks(cur@, max_len as int),
        decreases cur@.len(),
    {
        let ghost before = cur@;
        let rest = cur.split_off(max_len);
        let piece = chars_to_string(&cur);
        out.push(piece);
        proof {
            assert(cur@ =~= before.take(max_len as int));
            assert(rest@ =~= before.skip(max_len as int));
            assert(spec_chunks(before, max_len as int) == seq![before.take(max_len as int)]
                + spec_chunks(before.skip(max_len as int), max_len as int));
            assert(spec_views(out@) =~= spec_views(out@.drop_last()) + seq![out@.last()@]);
            assert(spec_views(out@.drop_last()) + seq![before.take(max_len as int)]
                + spec_chunks(before.skip(max_len as int), max_len as int) =~= spec_views(
                out@.drop_last(),
            ) + (seq![before.take(max_len as int)] + spec_chunks(
                before.skip(max_len as int),
                max_len as int,
            )));
        }
        cur = rest;
    }
    let piece = chars_to_string(&cur);
    out.push(piece);
    proof {
        assert(spec_chunks(cur@, max_len as int) == seq![cur@]);
        assert(spec_views(out@) =~= spec_views(out@.drop_last()) + seq![cur@]);
    }
}

/// Wraps evaluator output for a chat front end: each line is trimmed, kept
/// if it fits the width (blank lines are kept), and cut into
/// `max_len`-character pieces otherwise.
pub fn wrap_output(input: &str, max_len: usize) -> (r: Vec<String>)
    requires
        max_len >= 1,
    ensures
        spec_views(r@) == spec_wrap_output(input@, max_len as int),
{
    let chars = crate::text::to_chars(input);
    let lines = split_lines(&chars);
    let ghost lv = crate::textcfg::spec_line_views(lines@);
    let mut out: Vec<String> = Vec::new();
    let mut i: usize = 0;
    proof {
        assert(spec_views(out@) =~= Seq::<Seq<char>>::empty());
    }
    while i < lines.len()
        invariant
            max_len >= 1,
            0 <= i <= lines@.len(),
            lv == crate::textcfg::spec_line_views(lines@),
            lv == spec_split_lines(input@),
            spec_views(out@) + spec_wrap_lines(lv, i as int, max_len as int) == spec_wrap_output(
                input@,
                max_len as int,
            ),
        decreases lines@.len() - i,
    {
        proof {
            assert(lv[i as int] == lines@[i as int]@);
        }
        wrap_one_line(&mut out, &lines[i], max_len);
        proof {
            assert(spec_views(out@) + spec_wrap_lines(lv, i + 1, max_len as int) =~= spec_wrap_output(
                input@,
                max_len as int,
            ));
        }
        i += 1;
    }
    out
}

/// Whether the line count was cut, and the first `max_lines` lines.
pub fn truncate_output(input: Vec<String>, max_lines: usize) -> (r: (bool, Vec<String>))
    ensures
        r.0 == (max_lines < input@.len()),
        r.1@ == input@.take(vstd::math::min(max_lines as int, input@.len() as int)),
{
    let mut input = input;
    let ghost before = input@;
    if max_lines < input.len() {
        input.truncate(max_lines);
        proof {
            assert(input@ =~= before.take(max_lines as int));
        }
        (true, input)
    } else {
        proof {
            assert(input@ =~= before.take(before.len() as int));
        }
        (false, input)
    }
}

} // verus!
