//! The text form of the configuration: a small key-value document with a
//! top-level `timeout` and one `[languages.<name>]` section per language.
//!
//! Parsing and printing are both defined here, each against a spec-level
//! grammar, and printing a configuration and parsing the text back is
//! proved to return the same configuration
//! ([`lemma_print_parse_round_trip`]).
//!
//! The grammar, line by line: blank lines and `#` comments; `key = value`
//! with integer, quoted-string (`"…"` with `\\ \" \n \t \r` escapes, or
//! literal `'…'`) and string-list (`["…", "…"]`) values; section headers
//! `[languages.<key>]` where a key is bare (ASCII letters, digits, `-`,
//! `_`) or quoted.

use crate::{CfgV, EvalServiceCfg, LangCfg, LangCfgV};
use vstd::prelude::*;

verus! {

/// Horizontal whitespace (and stray `\r` of CRLF line endings).
pub open spec fn spec_is_space(c: char) -> bool {
    c == ' ' || c == '\t' || c == '\r'
}

fn is_space(c: char) -> (r: bool)
    ensures
        r == spec_is_space(c),
{
    c == ' ' || c == '\t' || c == '\r'
}

/// An ASCII decimal digit.
pub open spec fn spec_is_digit(c: char) -> bool {
    48 <= (c as u32) <= 57
}

fn is_digit(c: char) -> (r: bool)
    ensures
        r == spec_is_digit(c),
{
    (c as u32) >= 48 && (c as u32) <= 57
}

/// The value of one digit character.
pub open spec fn spec_digit_val(c: char) -> u32 {
    ((c as u32) - 48) as u32
}

/// A character allowed in a bare (unquoted) key.
pub open spec fn spec_is_bare(c: char) -> bool {
    ||| 97 <= (c as u32) <= 122
    ||| 65 <= (c as u32) <= 90
    ||| spec_is_digit(c)
    ||| c == '-'
    ||| c == '_'
}

fn is_bare(c: char) -> (r: bool)
    ensures
        r == spec_is_bare(c),
{
    ((c as u32) >= 97 && (c as u32) <= 122) || ((c as u32) >= 65 && (c as u32) <= 90) || is_digit(c)
        || c == '-' || c == '_'
}

/// First position at or after `i` holding something other than horizontal
/// whitespace.
pub open spec fn spec_skip_spaces(s: Seq<char>, i: int) -> int
    decreases s.len() - i,
{
    if 0 <= i < s.len() && spec_is_space(s[i]) {
        spec_skip_spaces(s, i + 1)
    } else {
        i
    }
}

fn skip_spaces(s: &Vec<char>, i: usize) -> (r: usize)
    requires
        i <= s@.len(),
    ensures
        r == spec_skip_spaces(s@, i as int),
        i <= r <= s@.len(),
    decreases s@.len() - i,
{
    if i < s.len() && is_space(s[i]) {
        skip_spaces(s, i + 1)
    } else {
        i
    }
}

/// Reads decimal digits from `i`, accumulating onto `acc`; `None` when the
/// value would not fit a `u32`. Ends at the first non-digit.
pub open spec fn spec_scan_u32(s: Seq<char>, i: int, acc: u32) -> Option<(u32, int)>
    decreases s.len() - i,
{
    if 0 <= i < s.len() && spec_is_digit(s[i]) {
        let d = spec_digit_val(s[i]);
        if acc > (0xffff_ffff - d) / 10 {
            None
        } else {
            spec_scan_u32(s, i + 1, (acc * 10 + d) as u32)
        }
    } else {
        Some((acc, i))
    }
}

fn scan_u32(s: &Vec<char>, i: usize, acc: u32) -> (r: Option<(u32, usize)>)
    requires
        i <= s@.len(),
    ensures
        match r {
            Some(p) => Some((p.0, p.1 as int)) == spec_scan_u32(s@, i as int, acc) && i <= p.1
                <= s@.len(),
            None => spec_scan_u32(s@, i as int, acc) is None,
        },
    decreases s@.len() - i,
{
    if i < s.len() && is_digit(s[i]) {
        let d = (s[i] as u32) - 48;
        if acc > (0xffff_ffffu32 - d) / 10 {
            None
        } else {
            scan_u32(s, i + 1, acc * 10 + d)
        }
    } else {
        Some((acc, i))
    }
}

/// The escaped character for an escape code, if the code is one of the
/// five accepted ones.
pub open spec fn spec_unescape_char(c: char) -> Option<char> {
    if c == 'n' {
        Some('\n')
    } else if c == 't' {
        Some('\t')
    } else if c == 'r' {
        Some('\r')
    } else if c == '"' {
        Some('"')
    } else if c == '\\' {
        Some('\\')
    } else {
        None
    }
}

fn unescape_char(c: char) -> (r: Option<char>)
    ensures
        r == spec_unescape_char(c),
{
    match c {
        'n' => Some('\n'),
        't' => Some('\t'),
        'r' => Some('\r'),
        '"' => Some('"'),
        '\\' => Some('\\'),
        _ => None,
    }
}

/// Reads the rest of a basic (`"`-quoted) string starting inside the
/// quotes at `i`: the accumulated content and the position after the
/// closing quote. `None` on an unknown escape or a missing closing quote.
pub open spec fn spec_scan_string(s: Seq<char>, i: int, acc: Seq<char>) -> Option<(Seq<char>, int)>
    decreases s.len() - i,
{
    if !(0 <= i < s.len()) {
        None
    } else if s[i] == '"' {
        Some((acc, i + 1))
    } else if s[i] == '\\' {
        if i + 1 >= s.len() {
            None
        } else {
            match spec_unescape_char(s[i + 1]) {
                None => None,
                Some(c) => spec_scan_string(s, i + 2, acc.push(c)),
            }
        }
    } else {
        spec_scan_string(s, i + 1, acc.push(s[i]))
    }
}

fn scan_string(s: &Vec<char>, i: usize, acc: Vec<char>) -> (r: Option<(Vec<char>, usize)>)
    requires
        i <= s@.len(),
    ensures
        match r {
            Some(p) => Some((p.0@, p.1 as int)) == spec_scan_string(s@, i as int, acc@) && i < p.1
                <= s@.len(),
            None => spec_scan_string(s@, i as int, acc@) is None,
        },
    decreases s@.len() - i,
{
    let mut acc = acc;
    if i >= s.len() {
        None
    } else if s[i] == '"' {
        Some((acc, i + 1))
    } else if s[i] == '\\' {
        if i + 1 >= s.len() {
            None
        } else {
            match unescape_char(s[i + 1]) {
                None => None,
                Some(c) => {
                    acc.push(c);
                    scan_string(s, i + 2, acc)
                },
            }
        }
    } else {
        let c = s[i];
        acc.push(c);
        scan_string(s, i + 1, acc)
    }
}

/// Reads the rest of a literal (`'`-quoted) string starting inside the
/// quotes at `i`: no escapes, everything up to the closing quote.
pub open spec fn spec_scan_literal(s: Seq<char>, i: int, acc: Seq<char>) -> Option<(Seq<char>, int)>
    decreases s.len() - i,
{
    if !(0 <= i < s.len()) {
        None
    } else if s[i] == '\'' {
        Some((acc, i + 1))
    } else {
        spec_scan_literal(s, i + 1, acc.push(s[i]))
    }
}

fn scan_literal(s: &Vec<char>, i: usize, acc: Vec<char>) -> (r: Option<(Vec<char>, usize)>)
    requires
        i <= s@.len(),
    ensures
        match r {
            Some(p) => Some((p.0@, p.1 as int)) == spec_scan_literal(s@, i as int, acc@) && i < p.1
                <= s@.len(),
            None => spec_scan_literal(s@, i as int, acc@) is None,
        },
    decreases s@.len() - i,
{
    let mut acc = acc;
    if i >= s.len() {
        None
    } else if s[i] == '\'' {
        Some((acc, i + 1))
    } else {
        let c = s[i];
        acc.push(c);
        scan_literal(s, i + 1, acc)
    }
}

/// Reads a run of bare-key characters from `i`.
pub open spec fn spec_scan_bare(s: Seq<char>, i: int, acc: Seq<char>) -> (Seq<char>, int)
    decreases s.len() - i,
{
    if 0 <= i < s.len() && spec_is_bare(s[i]) {
        spec_scan_bare(s, i + 1, acc.push(s[i]))
    } else {
        (acc, i)
    }
}

fn scan_bare(s: &Vec<char>, i: usize, acc: Vec<char>) -> (r: (Vec<char>, usize))
    requires
        i <= s@.len(),
    ensures
        (r.0@, r.1 as int) == spec_scan_bare(s@, i as int, acc@),
        i <= r.1 <= s@.len(),
    decreases s@.len() - i,
{
    let mut acc = acc;
    if i < s.len() && is_bare(s[i]) {
        let c = s[i];
        acc.push(c);
        scan_bare(s, i + 1, acc)
    } else {
        (acc, i)
    }
}

/// Reads a key at `i`: quoted (basic or literal), or a non-empty bare run.
pub open spec fn spec_scan_key(s: Seq<char>, i: int) -> Option<(Seq<char>, int)> {
    if 0 <= i < s.len() {
        if s[i] == '"' {
            spec_scan_string(s, i + 1, Seq::empty())
        } else if s[i] == '\'' {
            spec_scan_literal(s, i + 1, Seq::empty())
        } else {
            let (k, j) = spec_scan_bare(s, i, Seq::empty());
            if k.len() == 0 {
                None
            } else {
                Some((k, j))
            }
        }
    } else {
        None
    }
}

fn scan_key(s: &Vec<char>, i: usize) -> (r: Option<(Vec<char>, usize)>)
    requires
        i <= s@.len(),
    ensures
        match r {
            Some(p) => Some((p.0@, p.1 as int)) == spec_scan_key(s@, i as int) && i <= p.1
                <= s@.len(),
            None => spec_scan_key(s@, i as int) is None,
        },
{
    if i >= s.len() {
        return None;
    }
    if s[i] == '"' {
        scan_string(s, i + 1, Vec::new())
    } else if s[i] == '\'' {
        scan_literal(s, i + 1, Vec::new())
    } else {
        let (k, j) = scan_bare(s, i, Vec::new());
        if k.len() == 0 {
            None
        } else {
            Some((k, j))
        }
    }
}

/// Skipping spaces stays within the sequence.
pub proof fn lemma_skip_spaces_bounds(s: Seq<char>, i: int)
    requires
        0 <= i <= s.len(),
    ensures
        i <= spec_skip_spaces(s, i) <= s.len(),
    decreases s.len() - i,
{
    if i < s.len() && spec_is_space(s[i]) {
        lemma_skip_spaces_bounds(s, i + 1);
    }
}

/// A successful string scan moves past at least the closing quote.
pub proof fn lemma_scan_string_bounds(s: Seq<char>, i: int, acc: Seq<char>)
    requires
        0 <= i,
    ensures
        spec_scan_string(s, i, acc) matches Some(p) ==> i < p.1 <= s.len(),
    decreases s.len() - i,
{
    if 0 <= i < s.len() {
        if s[i] == '"' {
        } else if s[i] == '\\' {
            if i + 1 < s.len() {
                match spec_unescape_char(s[i + 1]) {
                    None => {},
                    Some(c) => lemma_scan_string_bounds(s, i + 2, acc.push(c)),
                }
            }
        } else {
            lemma_scan_string_bounds(s, i + 1, acc.push(s[i]));
        }
    }
}

/// One parsed line of the configuration text, at the level of views.
pub enum LineV {
    Blank,
    Header(Seq<char>),
    IntVal(Seq<char>, u32),
    StrVal(Seq<char>, Seq<char>),
    ListVal(Seq<char>, Seq<Seq<char>>),
}

/// One parsed line of the configuration text.
pub enum Line {
    /// Empty but for whitespace, or a `#` comment.
    Blank,
    /// `[languages.<key>]`
    Header(String),
    /// `<key> = <integer>`
    IntVal(String, u32),
    /// `<key> = "<string>"`
    StrVal(String, String),
    /// `<key> = ["<string>", …]`
    ListVal(String, Vec<String>),
}

impl View for Line {
    type V = LineV;

    open spec fn view(&self) -> LineV {
        match self {
            Line::Blank => LineV::Blank,
            Line::Header(k) => LineV::Header(k@),
            Line::IntVal(k, n) => LineV::IntVal(k@, *n),
            Line::StrVal(k, v) => LineV::StrVal(k@, v@),
            Line::ListVal(k, v) => LineV::ListVal(k@, crate::spec_views(v@)),
        }
    }
}

/// Reads the rest of a `["…", …]` list starting after the `[` (or after a
/// comma): the accumulated items and the position after the closing `]`.
pub open spec fn spec_scan_list(s: Seq<char>, i: int, acc: Seq<Seq<char>>) -> Option<
    (Seq<Seq<char>>, int),
>
    decreases s.len() - i,
    via spec_scan_list_decreases
{
    if !(0 <= i <= s.len()) {
        None
    } else {
        let j = spec_skip_spaces(s, i);
        if j >= s.len() {
            None
        } else if s[j] == ']' {
            Some((acc, j + 1))
        } else if s[j] == '"' {
            match spec_scan_string(s, j + 1, Seq::empty()) {
                None => None,
                Some((v, k)) => {
                    let m = spec_skip_spaces(s, k);
                    if m < s.len() && s[m] == ',' {
                        spec_scan_list(s, m + 1, acc.push(v))
                    } else if m < s.len() && s[m] == ']' {
                        Some((acc.push(v), m + 1))
                    } else {
                        None
                    }
                },
            }
        } else {
            None
        }
    }
}

#[via_fn]
proof fn spec_scan_list_decreases(s: Seq<char>, i: int, acc: Seq<Seq<char>>) {
    if 0 <= i <= s.len() {
        lemma_skip_spaces_bounds(s, i);
        let j = spec_skip_spaces(s, i);
        if j < s.len() && s[j] == '"' {
            lemma_scan_string_bounds(s, j + 1, Seq::empty());
            match spec_scan_string(s, j + 1, Seq::empty()) {
                None => {},
                Some((v, k)) => {
                    lemma_skip_spaces_bounds(s, k);
                },
            }
        }
    }
}

fn scan_list(s: &Vec<char>, i: usize, acc: Vec<String>) -> (r: Option<(Vec<String>, usize)>)
    requires
        i <= s@.len(),
    ensures
        match r {
            Some(p) => Some((crate::spec_views(p.0@), p.1 as int)) == spec_scan_list(
                s@,
                i as int,
                crate::spec_views(acc@),
            ) && p.1 <= s@.len(),
            None => spec_scan_list(s@, i as int, crate::spec_views(acc@)) is None,
        },
    decreases s@.len() - i,
{
    let mut acc = acc;
    let j = skip_spaces(s, i);
    if j >= s.len() {
        None
    } else if s[j] == ']' {
        Some((acc, j + 1))
    } else if s[j] == '"' {
        match scan_string(s, j + 1, Vec::new()) {
            None => None,
            Some((v, k)) => {
                let item = crate::text::chars_to_string(&v);
                let m = skip_spaces(s, k);
                proof {
                    assert(crate::spec_views(acc@.push(item)) =~= crate::spec_views(acc@).push(
                        v@,
                    ));
                }
                if m < s.len() && s[m] == ',' {
                    acc.push(item);
                    scan_list(s, m + 1, acc)
                } else if m < s.len() && s[m] == ']' {
                    acc.push(item);
                    Some((acc, m + 1))
                } else {
                    None
                }
            },
        }
    } else {
        None
    }
}

/// Whether nothing but whitespace — and possibly a `#` comment — remains
/// from `e` to the end of the line.
pub open spec fn spec_at_end(s: Seq<char>, e: int) -> bool {
    let j = spec_skip_spaces(s, e);
    j == s.len() || (0 <= j < s.len() && s[j] == '#')
}

fn at_end(s: &Vec<char>, e: usize) -> (r: bool)
    requires
        e <= s@.len(),
    ensures
        r == spec_at_end(s@, e as int),
{
    let j = skip_spaces(s, e);
    j == s.len() || s[j] == '#'
}

/// Parses a `[languages.<key>]` header, starting after the `[`.
pub open spec fn spec_parse_header(s: Seq<char>, i: int) -> Option<LineV> {
    let (w, j) = spec_scan_bare(s, i, Seq::empty());
    if w != "languages"@ {
        None
    } else if !(j < s.len() && s[j] == '.') {
        None
    } else {
        match spec_scan_key(s, j + 1) {
            None => None,
            Some((name, k)) => {
                if k < s.len() && s[k] == ']' && spec_at_end(s, k + 1) {
                    Some(LineV::Header(name))
                } else {
                    None
                }
            },
        }
    }
}

/// Parses a `key = value` line, starting at the key.
pub open spec fn spec_parse_kv(s: Seq<char>, i: int) -> Option<LineV> {
    match spec_scan_key(s, i) {
        None => None,
        Some((k, j)) => {
            let j2 = spec_skip_spaces(s, j);
            if !(j2 < s.len() && s[j2] == '=') {
                None
            } else {
                let j3 = spec_skip_spaces(s, j2 + 1);
                if j3 >= s.len() {
                    None
                } else if s[j3] == '"' {
                    match spec_scan_string(s, j3 + 1, Seq::empty()) {
                        None => None,
                        Some((v, e)) => if spec_at_end(s, e) {
                            Some(LineV::StrVal(k, v))
                        } else {
                            None
                        },
                    }
                } else if s[j3] == '\'' {
                    match spec_scan_literal(s, j3 + 1, Seq::empty()) {
                        None => None,
                        Some((v, e)) => if spec_at_end(s, e) {
                            Some(LineV::StrVal(k, v))
                        } else {
                            None
                        },
                    }
                } else if s[j3] == '[' {
                    match spec_scan_list(s, j3 + 1, Seq::empty()) {
                        None => None,
                        Some((v, e)) => if spec_at_end(s, e) {
                            Some(LineV::ListVal(k, v))
                        } else {
                            None
                        },
                    }
                } else if spec_is_digit(s[j3]) {
                    match spec_scan_u32(s, j3, 0) {
                        None => None,
                        Some((n, e)) => if spec_at_end(s, e) {
                            Some(LineV::IntVal(k, n))
                        } else {
                            None
                        },
                    }
                } else {
                    None
                }
            }
        },
    }
}

/// Position of the first newline, or the length when there is none.
pub open spec fn spec_line_len(s: Seq<char>) -> int
    decreases s.len(),
{
    if s.len() == 0 {
        0
    } else if s[0] == '\n' {
        0
    } else {
        1 + spec_line_len(s.drop_first())
    }
}

/// The first newline is where the newline-free prefix ends.
pub proof fn lemma_line_len_at(s: Seq<char>, k: int)
    requires
        0 <= k <= s.len(),
        forall|j: int| 0 <= j < k ==> s[j] != '\n',
        k == s.len() || s[k] == '\n',
    ensures
        spec_line_len(s) == k,
    decreases k,
{
    if k == 0 {
    } else {
        assert(s[0] != '\n');
        lemma_line_len_at(s.drop_first(), k - 1);
    }
}

/// The lines of the text: split at each newline; a trailing newline adds
/// no empty line.
pub open spec fn spec_split_lines(s: Seq<char>) -> Seq<Seq<char>>
    decreases s.len(),
    via spec_split_lines_decreases
{
    if s.len() == 0 {
        Seq::empty()
    } else {
        let n = spec_line_len(s);
        let rest = if n < s.len() {
            s.skip(n + 1)
        } else {
            s.skip(n)
        };
        seq![s.take(n)] + spec_split_lines(rest)
    }
}

#[via_fn]
proof fn spec_split_lines_decreases(s: Seq<char>) {
    if s.len() > 0 {
        lemma_line_len_bounds(s);
    }
}

/// The first line is within the text.
pub proof fn lemma_line_len_bounds(s: Seq<char>)
    ensures
        0 <= spec_line_len(s) <= s.len(),
    decreases s.len(),
{
    if s.len() > 0 && s[0] != '\n' {
        lemma_line_len_bounds(s.drop_first());
    }
}

/// Splits the text into its lines.
pub fn split_lines(s: &Vec<char>) -> (r: Vec<Vec<char>>)
    ensures
        spec_line_views(r@) == spec_split_lines(s@),
{
    let mut lines: Vec<Vec<char>> = Vec::new();
    let mut cur: Vec<char> = Vec::new();
    let mut i: usize = 0;
    proof {
        assert(cur@ + s@.skip(0) =~= s@);
        assert(spec_line_views(lines@) =~= Seq::<Seq<char>>::empty());
    }
    while i < s.len()
        invariant
            0 <= i <= s@.len(),
            forall|j: int| 0 <= j < cur@.len() ==> cur@[j] != '\n',
            spec_split_lines(s@) == spec_line_views(lines@) + spec_split_lines(
                cur@ + s@.skip(i as int),
            ),
        decreases s@.len() - i,
    {
        let c = s[i];
        let ghost t = cur@ + s@.skip(i as int);
        if c == '\n' {
            proof {
                assert(t[cur@.len() as int] == '\n');
                lemma_line_len_at(t, cur@.len() as int);
                assert(t.take(cur@.len() as int) =~= cur@);
                assert(t.skip(cur@.len() as int + 1) =~= s@.skip(i as int + 1));
                assert(spec_split_lines(t) == seq![cur@] + spec_split_lines(
                    s@.skip(i as int + 1),
                ));
            }
            lines.push(cur);
            cur = Vec::new();
            proof {
                assert(spec_line_views(lines@) =~= spec_line_views(lines@.drop_last())
                    + seq![lines@.last()@]);
                assert(cur@ + s@.skip(i as int + 1) =~= s@.skip(i as int + 1));
            }
        } else {
            cur.push(c);
            proof {
                assert(cur@ + s@.skip(i as int + 1) =~= t);
            }
        }
        i += 1;
    }
    if cur.len() > 0 {
        proof {
            assert(cur@ + s@.skip(i as int) =~= cur@);
            lemma_line_len_at(cur@, cur@.len() as int);
            assert(cur@.take(cur@.len() as int) =~= cur@);
            assert(cur@.skip(cur@.len() as int) =~= Seq::<char>::empty());
            assert(spec_split_lines(cur@) == seq![cur@] + spec_split_lines(Seq::empty()));
        }
        lines.push(cur);
        proof {
            assert(spec_line_views(lines@) =~= spec_line_views(lines@.drop_last()) + seq![
                lines@.last()@,
            ]);
        }
    } else {
        proof {
            assert(cur@ + s@.skip(i as int) =~= Seq::<char>::empty());
        }
    }
    proof {
        assert(spec_line_views(lines@) + Seq::<Seq<char>>::empty() =~= spec_line_views(lines@));
    }
    lines
}

/// The characters of each line in a list of lines.
pub open spec fn spec_line_views(v: Seq<Vec<char>>) -> Seq<Seq<char>> {
    Seq::new(v.len(), |i: int| v[i]@)
}

/// Parses one line: blank or comment, section header, or `key = value`.
pub open spec fn spec_parse_line(s: Seq<char>) -> Option<LineV> {
    let i = spec_skip_spaces(s, 0);
    if i >= s.len() {
        Some(LineV::Blank)
    } else if s[i] == '#' {
        Some(LineV::Blank)
    } else if s[i] == '[' {
        spec_parse_header(s, i + 1)
    } else {
        spec_parse_kv(s, i)
    }
}

fn parse_header(s: &Vec<char>, i: usize) -> (r: Option<Line>)
    requires
        i <= s@.len(),
    ensures
        match r {
            Some(l) => Some(l@) == spec_parse_header(s@, i as int),
            None => spec_parse_header(s@, i as int) is None,
        },
{
    let (w, j) = scan_bare(s, i, Vec::new());
    let wstr = crate::text::chars_to_string(&w);
    if !crate::text::eq_str(wstr.as_str(), "languages") {
        return None;
    }
    if !(j < s.len() && s[j] == '.') {
        return None;
    }
    match scan_key(s, j + 1) {
        None => None,
        Some((name, k)) => {
            if k < s.len() && s[k] == ']' && at_end(s, k + 1) {
                Some(Line::Header(crate::text::chars_to_string(&name)))
            } else {
                None
            }
        },
    }
}

fn parse_kv(s: &Vec<char>, i: usize) -> (r: Option<Line>)
    requires
        i <= s@.len(),
    ensures
        match r {
            Some(l) => Some(l@) == spec_parse_kv(s@, i as int),
            None => spec_parse_kv(s@, i as int) is None,
        },
{
    match scan_key(s, i) {
        None => None,
        Some((k, j)) => {
            let key = crate::text::chars_to_string(&k);
            let j2 = skip_spaces(s, j);
            if !(j2 < s.len() && s[j2] == '=') {
                return None;
            }
            let j3 = skip_spaces(s, j2 + 1);
            if j3 >= s.len() {
                None
            } else if s[j3] == '"' {
                match scan_string(s, j3 + 1, Vec::new()) {
                    None => None,
                    Some((v, e)) => {
                        if at_end(s, e) {
                            Some(Line::StrVal(key, crate::text::chars_to_string(&v)))
                        } else {
                            None
                        }
                    },
                }
            } else if s[j3] == '\'' {
                match scan_literal(s, j3 + 1, Vec::new()) {
                    None => None,
                    Some((v, e)) => {
                        if at_end(s, e) {
                            Some(Line::StrVal(key, crate::text::chars_to_string(&v)))
                        } else {
                            None
                        }
                    },
                }
            } else if s[j3] == '[' {
                let no_items: Vec<String> = Vec::new();
                proof {
                    assert(crate::spec_views(no_items@) =~= Seq::<Seq<char>>::empty());
                }
                match scan_list(s, j3 + 1, no_items) {
                    None => None,
                    Some((v, e)) => {
                        if at_end(s, e) {
                            Some(Line::ListVal(key, v))
                        } else {
                            None
                        }
                    },
                }
            } else if is_digit(s[j3]) {
                match scan_u32(s, j3, 0) {
                    None => None,
                    Some((n, e)) => {
                        if at_end(s, e) {
                            Some(Line::IntVal(key, n))
                        } else {
                            None
                        }
                    },
                }
            } else {
                None
            }
        },
    }
}

/// Parses one line of the configuration text.
pub fn parse_line(s: &Vec<char>) -> (r: Option<Line>)
    ensures
        match r {
            Some(l) => Some(l@) == spec_parse_line(s@),
            None => spec_parse_line(s@) is None,
        },
{
    let i = skip_spaces(s, 0);
    if i >= s.len() {
        Some(Line::Blank)
    } else if s[i] == '#' {
        Some(Line::Blank)
    } else if s[i] == '[' {
        parse_header(s, i + 1)
    } else {
        parse_kv(s, i)
    }
}

/// The fields gathered so far for one `[languages.<name>]` section, at the
/// level of views.
pub struct PartialV {
    pub code_before: Option<Seq<char>>,
    pub code_after: Option<Seq<char>>,
    pub timeout: Option<u32>,
    pub cmdline: Option<Seq<Seq<char>>>,
    pub timeout_prefix: Option<Seq<char>>,
    pub socket_addr: Option<Seq<char>>,
    pub network_addr: Option<Seq<char>>,
    pub timeout_cmdline: Option<Seq<Seq<char>>>,
}

/// The fields gathered so far for one `[languages.<name>]` section.
pub struct Partial {
    pub code_before: Option<String>,
    pub code_after: Option<String>,
    pub timeout: Option<u32>,
    pub cmdline: Option<Vec<String>>,
    pub timeout_prefix: Option<String>,
    pub socket_addr: Option<String>,
    pub network_addr: Option<String>,
    pub timeout_cmdline: Option<Vec<String>>,
}

impl View for Partial {
    type V = PartialV;

    open spec fn view(&self) -> PartialV {
        PartialV {
            code_before: crate::spec_opt_view(self.code_before),
            code_after: crate::spec_opt_view(self.code_after),
            timeout: self.timeout,
            cmdline: crate::spec_opt_views(self.cmdline),
            timeout_prefix: crate::spec_opt_view(self.timeout_prefix),
            socket_addr: crate::spec_opt_view(self.socket_addr),
            network_addr: crate::spec_opt_view(self.network_addr),
            timeout_cmdline: crate::spec_opt_views(self.timeout_cmdline),
        }
    }
}

/// A section with no fields yet.
pub open spec fn spec_empty_partial() -> PartialV {
    PartialV {
        code_before: None,
        code_after: None,
        timeout: None,
        cmdline: None,
        timeout_prefix: None,
        socket_addr: None,
        network_addr: None,
        timeout_cmdline: None,
    }
}

impl Partial {
    /// A section with no fields yet.
    pub fn new() -> (r: Partial)
        ensures
            r@ == spec_empty_partial(),
    {
        Partial {
            code_before: None,
            code_after: None,
            timeout: None,
            cmdline: None,
            timeout_prefix: None,
            socket_addr: None,
            network_addr: None,
            timeout_cmdline: None,
        }
    }
}

/// Closes a section: exactly one backend discriminator (`cmdline`,
/// `socket_addr` or `network_addr`) must be present, `timeout_prefix` only
/// beside `cmdline`, and `timeout_cmdline` only beside an address.
pub open spec fn spec_finalize(p: PartialV) -> Option<LangCfgV> {
    match (p.cmdline, p.socket_addr, p.network_addr) {
        (Some(c), None, None) => match p.timeout_cmdline {
            Some(_) => None,
            None => Some(
                LangCfgV {
                    code_before: p.code_before,
                    code_after: p.code_after,
                    timeout: p.timeout,
                    backend: crate::BackendV::Exec(
                        crate::ExecBackendV { cmdline: c, timeout_prefix: p.timeout_prefix },
                    ),
                },
            ),
        },
        (None, Some(a), None) => match p.timeout_prefix {
            Some(_) => None,
            None => Some(
                LangCfgV {
                    code_before: p.code_before,
                    code_after: p.code_after,
                    timeout: p.timeout,
                    backend: crate::BackendV::UnixSocket(
                        crate::UnixSocketBackendV {
                            socket_addr: a,
                            timeout_cmdline: p.timeout_cmdline,
                        },
                    ),
                },
            ),
        },
        (None, None, Some(a)) => match p.timeout_prefix {
            Some(_) => None,
            None => Some(
                LangCfgV {
                    code_before: p.code_before,
                    code_after: p.code_after,
                    timeout: p.timeout,
                    backend: crate::BackendV::Network(
                        crate::NetworkBackendV {
                            network_addr: a,
                            timeout_cmdline: p.timeout_cmdline,
                        },
                    ),
                },
            ),
        },
        _ => None,
    }
}

fn finalize(p: Partial) -> (r: Option<LangCfg>)
    ensures
        match r {
            Some(lc) => Some(lc@) == spec_finalize(p@),
            None => spec_finalize(p@) is None,
        },
{
    let Partial {
        code_before,
        code_after,
        timeout,
        cmdline,
        timeout_prefix,
        socket_addr,
        network_addr,
        timeout_cmdline,
    } = p;
    match (cmdline, socket_addr, network_addr) {
        (Some(c), None, None) => {
            if timeout_cmdline.is_some() {
                None
            } else {
                Some(
                    LangCfg {
                        code_before,
                        code_after,
                        timeout,
                        backend: crate::Backend::Exec(
                            crate::ExecBackend { cmdline: c, timeout_prefix },
                        ),
                    },
                )
            }
        },
        (None, Some(a), None) => {
            if timeout_prefix.is_some() {
                None
            } else {
                Some(
                    LangCfg {
                        code_before,
                        code_after,
                        timeout,
                        backend: crate::Backend::UnixSocket(
                            crate::UnixSocketBackend { socket_addr: a, timeout_cmdline },
                        ),
                    },
                )
            }
        },
        (None, None, Some(a)) => {
            if timeout_prefix.is_some() {
                None
            } else {
                Some(
                    LangCfg {
                        code_before,
                        code_after,
                        timeout,
                        backend: crate::Backend::Network(
                            crate::NetworkBackend { network_addr: a, timeout_cmdline },
                        ),
                    },
                )
            }
        },
        _ => None,
    }
}

/// The registry entries, at the level of views.
pub open spec fn spec_entry_views(v: Seq<(String, LangCfg)>) -> Seq<(Seq<char>, LangCfgV)> {
    Seq::new(v.len(), |i: int| (v[i].0@, v[i].1@))
}

/// Whether a language of this name was already gathered.
pub open spec fn spec_contains_name(done: Seq<(Seq<char>, LangCfgV)>, name: Seq<char>) -> bool {
    exists|i: int| 0 <= i < done.len() && done[i].0 == name
}

fn contains_name(done: &Vec<(String, LangCfg)>, name: &str) -> (r: bool)
    ensures
        r == spec_contains_name(spec_entry_views(done@), name@),
{
    let mut i: usize = 0;
    while i < done.len()
        invariant
            0 <= i <= done@.len(),
            forall|j: int| 0 <= j < i ==> (#[trigger] done@[j]).0@ != name@,
        decreases done@.len() - i,
    {
        if crate::text::eq_str(done[i].0.as_str(), name) {
            proof {
                assert(spec_entry_views(done@)[i as int].0 == name@);
            }
            return true;
        }
        i += 1;
    }
    proof {
        assert forall|k: int| 0 <= k < spec_entry_views(done@).len() implies spec_entry_views(
            done@,
        )[k].0 != name@ by {
            assert(spec_entry_views(done@)[k].0 == done@[k].0@);
        }
    }
    false
}

/// Closes the open section, if any: its record is finalized and appended,
/// provided its name is new.
pub open spec fn spec_close(
    done: Seq<(Seq<char>, LangCfgV)>,
    cur: Option<(Seq<char>, PartialV)>,
) -> Option<Seq<(Seq<char>, LangCfgV)>> {
    match cur {
        None => Some(done),
        Some((name, p)) => match spec_finalize(p) {
            None => None,
            Some(lc) => if spec_contains_name(done, name) {
                None
            } else {
                Some(done.push((name, lc)))
            },
        },
    }
}

/// The open section, at the level of views.
pub open spec fn spec_cur(cur_name: Option<String>, p: PartialV) -> Option<(Seq<char>, PartialV)> {
    match cur_name {
        None => None,
        Some(n) => Some((n@, p)),
    }
}

/// Folds parsed lines into a configuration. The first non-blank line must
/// set the top-level `timeout`; each `[languages.<name>]` header opens a
/// section whose `key = value` lines fill the record; names must be
/// distinct, keys within a section unset before, and every section must
/// name exactly one backend.
pub open spec fn spec_assemble(
    lines: Seq<Seq<char>>,
    i: int,
    timeout: Option<u32>,
    done: Seq<(Seq<char>, LangCfgV)>,
    cur: Option<(Seq<char>, PartialV)>,
) -> Option<CfgV>
    decreases lines.len() - i,
{
    if !(0 <= i <= lines.len()) {
        None
    } else if i == lines.len() {
        match timeout {
            None => None,
            Some(t) => match spec_close(done, cur) {
                None => None,
                Some(ls) => Some(CfgV { timeout: t, languages: ls }),
            },
        }
    } else {
        match spec_parse_line(lines[i]) {
            None => None,
            Some(LineV::Blank) => spec_assemble(lines, i + 1, timeout, done, cur),
            Some(LineV::Header(name)) => if timeout is None {
                None
            } else {
                match spec_close(done, cur) {
                    None => None,
                    Some(ls) => spec_assemble(
                        lines,
                        i + 1,
                        timeout,
                        ls,
                        Some((name, spec_empty_partial())),
                    ),
                }
            },
            Some(LineV::IntVal(k, n)) => match cur {
                None => if k == "timeout"@ && timeout is None {
                    spec_assemble(lines, i + 1, Some(n), done, cur)
                } else {
                    None
                },
                Some((nm, p)) => if k == "timeout"@ && p.timeout is None {
                    spec_assemble(
                        lines,
                        i + 1,
                        timeout,
                        done,
                        Some((nm, PartialV { timeout: Some(n), ..p })),
                    )
                } else {
                    None
                },
            },
            Some(LineV::StrVal(k, v)) => match cur {
                None => None,
                Some((nm, p)) => if k == "code_before"@ && p.code_before is None {
                    spec_assemble(
                        lines,
                        i + 1,
                        timeout,
                        done,
                        Some((nm, PartialV { code_before: Some(v), ..p })),
                    )
                } else if k == "code_after"@ && p.code_after is None {
                    spec_assemble(
                        lines,
                        i + 1,
                        timeout,
                        done,
                        Some((nm, PartialV { code_after: Some(v), ..p })),
                    )
                } else if k == "timeout_prefix"@ && p.timeout_prefix is None {
                    spec_assemble(
                        lines,
                        i + 1,
                        timeout,
                        done,
                        Some((nm, PartialV { timeout_prefix: Some(v), ..p })),
                    )
                } else if k == "socket_addr"@ && p.socket_addr is None {
                    spec_assemble(
                        lines,
                        i + 1,
                        timeout,
                        done,
                        Some((nm, PartialV { socket_addr: Some(v), ..p })),
                    )
                } else if k == "network_addr"@ && p.network_addr is None {
                    spec_assemble(
                        lines,
                        i + 1,
                        timeout,
                        done,
                        Some((nm, PartialV { network_addr: Some(v), ..p })),
                    )
                } else {
                    None
                },
            },
            Some(LineV::ListVal(k, v)) => match cur {
                None => None,
                Some((nm, p)) => if k == "cmdline"@ && p.cmdline is None {
                    spec_assemble(
                        lines,
                        i + 1,
                        timeout,
                        done,
                        Some((nm, PartialV { cmdline: Some(v), ..p })),
                    )
                } else if k == "timeout_cmdline"@ && p.timeout_cmdline is None {
                    spec_assemble(
                        lines,
                        i + 1,
                        timeout,
                        done,
                        Some((nm, PartialV { timeout_cmdline: Some(v), ..p })),
                    )
                } else {
                    None
                },
            },
        }
    }
}

/// The lines from `i` on, joined with a newline after each.
pub open spec fn spec_join_nl(ls: Seq<Seq<char>>, i: int) -> Seq<char>
    decreases ls.len() - i,
{
    if !(0 <= i < ls.len()) {
        Seq::empty()
    } else {
        ls[i] + seq!['\n'] + spec_join_nl(ls, i + 1)
    }
}

/// No newline anywhere in the sequence.
pub open spec fn spec_no_newline(s: Seq<char>) -> bool {
    forall|i: int| 0 <= i < s.len() ==> #[trigger] s[i] != '\n'
}

/// Splitting newline-joined lines gives the lines back.
pub proof fn lemma_split_join(ls: Seq<Seq<char>>, i: int)
    requires
        0 <= i <= ls.len(),
        forall|k: int| 0 <= k < ls.len() ==> spec_no_newline(#[trigger] ls[k]),
    ensures
        spec_split_lines(spec_join_nl(ls, i)) == ls.skip(i),
    decreases ls.len() - i,
{
    if i == ls.len() {
        assert(ls.skip(i) =~= Seq::<Seq<char>>::empty());
    } else {
        let t = spec_join_nl(ls, i);
        assert(t == ls[i] + seq!['\n'] + spec_join_nl(ls, i + 1));
        assert(spec_no_newline(ls[i]));
        assert(t[ls[i].len() as int] == '\n');
        assert(forall|k: int| 0 <= k < ls[i].len() ==> #[trigger] t[k] != '\n');
        lemma_line_len_at(t, ls[i].len() as int);
        assert(t.len() > 0);
        assert(t.take(ls[i].len() as int) =~= ls[i]);
        assert(t.skip(ls[i].len() as int + 1) =~= spec_join_nl(ls, i + 1));
        lemma_split_join(ls, i + 1);
        assert(seq![ls[i]] + ls.skip(i + 1) =~= ls.skip(i));
    }
}

/// Escaped text never holds a newline.
pub proof fn lemma_escape_no_newline(v: Seq<char>)
    ensures
        spec_no_newline(spec_escape(v)),
    decreases v.len(),
{
    if v.len() > 0 {
        lemma_escape_no_newline(v.drop_first());
        let e0 = spec_escape_char(v[0]);
        assert(forall|i: int| 0 <= i < e0.len() ==> #[trigger] e0[i] != '\n');
        assert(forall|i: int|
            0 <= i < spec_escape(v).len() ==> #[trigger] spec_escape(v)[i] != '\n') by {
            assert(spec_escape(v) == e0 + spec_escape(v.drop_first()));
        }
    }
}

/// A quoted string never holds a newline.
pub proof fn lemma_quote_no_newline(v: Seq<char>)
    ensures
        spec_no_newline(spec_quote(v)),
{
    lemma_escape_no_newline(v);
}

/// A printed key never holds a newline.
pub proof fn lemma_print_key_no_newline(name: Seq<char>)
    ensures
        spec_no_newline(spec_print_key(name)),
{
    if spec_bare_ok(name) {
        assert forall|i: int| 0 <= i < name.len() implies #[trigger] name[i] != '\n' by {
            assert(spec_is_bare(name[i]));
            assert(('\n') as u32 == 10);
        }
    } else {
        lemma_quote_no_newline(name);
    }
}

/// A decimal numeral never holds a newline.
pub proof fn lemma_dec_no_newline(n: int)
    requires
        n >= 0,
    ensures
        spec_no_newline(crate::text::spec_dec(n)),
{
    lemma_dec_digits(n);
    assert forall|i: int|
        0 <= i < crate::text::spec_dec(n).len() implies #[trigger] crate::text::spec_dec(n)[i]
        != '\n' by {
        assert(spec_is_digit(crate::text::spec_dec(n)[i]));
        assert(('\n') as u32 == 10);
    }
}

/// Printed list items never hold a newline.
pub proof fn lemma_print_items_no_newline(items: Seq<Seq<char>>, k: int)
    ensures
        spec_no_newline(spec_print_items(items, k)),
    decreases items.len() - k,
{
    if 0 <= k < items.len() {
        lemma_quote_no_newline(items[k]);
        reveal_strlit(", ");
        if k < items.len() - 1 {
            lemma_print_items_no_newline(items, k + 1);
        }
    }
}

/// A printed list never holds a newline.
pub proof fn lemma_print_list_no_newline(items: Seq<Seq<char>>)
    ensures
        spec_no_newline(spec_print_list(items)),
{
    lemma_print_items_no_newline(items, 0);
}

/// The section fields gathered back from a record.
pub open spec fn spec_partial_of(lc: LangCfgV) -> PartialV {
    PartialV {
        code_before: lc.code_before,
        code_after: lc.code_after,
        timeout: lc.timeout,
        cmdline: match lc.backend {
            crate::BackendV::Exec(b) => Some(b.cmdline),
            _ => None,
        },
        timeout_prefix: match lc.backend {
            crate::BackendV::Exec(b) => b.timeout_prefix,
            _ => None,
        },
        socket_addr: match lc.backend {
            crate::BackendV::UnixSocket(b) => Some(b.socket_addr),
            _ => None,
        },
        network_addr: match lc.backend {
            crate::BackendV::Network(b) => Some(b.network_addr),
            _ => None,
        },
        timeout_cmdline: match lc.backend {
            crate::BackendV::UnixSocket(b) => b.timeout_cmdline,
            crate::BackendV::Network(b) => b.timeout_cmdline,
            _ => None,
        },
    }
}

/// Closing a section holding exactly a record's fields yields the record.
pub proof fn lemma_finalize_partial_of(lc: LangCfgV)
    ensures
        spec_finalize(spec_partial_of(lc)) == Some(lc),
{
    match lc.backend {
        crate::BackendV::Exec(b) => {},
        crate::BackendV::UnixSocket(b) => {},
        crate::BackendV::Network(b) => {},
    }
}

/// The canonical lines of the optional per-language fields, in order.
pub open spec fn spec_opts_lines(lc: LangCfgV) -> Seq<Seq<char>> {
    (match lc.code_before {
        Some(v) => seq!["code_before"@ + " = "@ + spec_quote(v)],
        None => Seq::<Seq<char>>::empty(),
    }) + (match lc.code_after {
        Some(v) => seq!["code_after"@ + " = "@ + spec_quote(v)],
        None => Seq::<Seq<char>>::empty(),
    }) + (match lc.timeout {
        Some(t) => seq!["timeout"@ + " = "@ + crate::text::spec_dec(t as int)],
        None => Seq::<Seq<char>>::empty(),
    })
}

/// The canonical lines of the backend fields.
pub open spec fn spec_backend_lines(b: crate::BackendV) -> Seq<Seq<char>> {
    match b {
        crate::BackendV::Exec(bb) => seq!["cmdline"@ + " = "@ + spec_print_list(bb.cmdline)]
            + (match bb.timeout_prefix {
            Some(p) => seq!["timeout_prefix"@ + " = "@ + spec_quote(p)],
            None => Seq::<Seq<char>>::empty(),
        }),
        crate::BackendV::UnixSocket(bb) => seq![
            "socket_addr"@ + " = "@ + spec_quote(bb.socket_addr),
        ] + (match bb.timeout_cmdline {
            Some(v) => seq!["timeout_cmdline"@ + " = "@ + spec_print_list(v)],
            None => Seq::<Seq<char>>::empty(),
        }),
        crate::BackendV::Network(bb) => seq![
            "network_addr"@ + " = "@ + spec_quote(bb.network_addr),
        ] + (match bb.timeout_cmdline {
            Some(v) => seq!["timeout_cmdline"@ + " = "@ + spec_print_list(v)],
            None => Seq::<Seq<char>>::empty(),
        }),
    }
}

/// The canonical lines of one language section: a blank separator, the
/// header, the optional fields in order, then the backend fields.
pub open spec fn spec_lang_lines(name: Seq<char>, lc: LangCfgV) -> Seq<Seq<char>> {
    seq![Seq::<char>::empty(), "[languages."@ + spec_print_key(name) + "]"@] + spec_opts_lines(lc)
        + spec_backend_lines(lc.backend)
}

/// The canonical lines of the languages from `j` on.
pub open spec fn spec_langs_lines(ls: Seq<(Seq<char>, LangCfgV)>, j: int) -> Seq<Seq<char>>
    decreases ls.len() - j,
{
    if !(0 <= j < ls.len()) {
        Seq::empty()
    } else {
        spec_lang_lines(ls[j].0, ls[j].1) + spec_langs_lines(ls, j + 1)
    }
}

/// The canonical lines of a whole configuration.
pub open spec fn spec_config_lines(c: CfgV) -> Seq<Seq<char>> {
    seq!["timeout"@ + " = "@ + crate::text::spec_dec(c.timeout as int)] + spec_langs_lines(
        c.languages,
        0,
    )
}

/// Joining from `i` is joining the suffix.
pub proof fn lemma_join_skip(ls: Seq<Seq<char>>, i: int)
    requires
        0 <= i <= ls.len(),
    ensures
        spec_join_nl(ls, i) == spec_join_nl(ls.skip(i), 0),
    decreases ls.len() - i,
{
    if i < ls.len() {
        lemma_join_skip(ls, i + 1);
        assert(ls.skip(i)[0] == ls[i]);
        assert(ls.skip(i + 1) =~= ls.skip(i).skip(1));
        assert(spec_join_nl(ls.skip(i), 0) == ls[i] + seq!['\n'] + spec_join_nl(ls.skip(i), 1));
        assert(spec_join_nl(ls.skip(i), 1) == spec_join_nl(ls.skip(i).skip(1), 0)) by {
            lemma_join_skip(ls.skip(i), 1);
        }
    } else {
        assert(ls.skip(i) =~= Seq::<Seq<char>>::empty());
    }
}

/// Joining a first line, then the rest.
pub proof fn lemma_join_cons(h: Seq<char>, t: Seq<Seq<char>>)
    ensures
        spec_join_nl(seq![h] + t, 0) == h + seq!['\n'] + spec_join_nl(t, 0),
{
    let s = seq![h] + t;
    assert(s[0] == h);
    assert(s.skip(1) =~= t);
    lemma_join_skip(s, 1);
}

/// Joining a concatenation of line lists joins each in turn.
pub proof fn lemma_join_append(a: Seq<Seq<char>>, b: Seq<Seq<char>>)
    ensures
        spec_join_nl(a + b, 0) == spec_join_nl(a, 0) + spec_join_nl(b, 0),
    decreases a.len(),
{
    if a.len() == 0 {
        assert(a + b =~= b);
        assert(Seq::<char>::empty() + spec_join_nl(b, 0) =~= spec_join_nl(b, 0));
    } else {
        let t = a.drop_first();
        assert(a + b =~= seq![a[0]] + (t + b));
        assert(a =~= seq![a[0]] + t);
        lemma_join_cons(a[0], t + b);
        lemma_join_cons(a[0], t);
        lemma_join_append(t, b);
        assert(a[0] + seq!['\n'] + (spec_join_nl(t, 0) + spec_join_nl(b, 0)) =~= (a[0]
            + seq!['\n'] + spec_join_nl(t, 0)) + spec_join_nl(b, 0));
    }
}

/// Joining one line alone.
pub proof fn lemma_join_one(h: Seq<char>)
    ensures
        spec_join_nl(seq![h], 0) == h + seq!['\n'],
{
    assert(seq![h] =~= seq![h] + Seq::<Seq<char>>::empty());
    lemma_join_cons(h, Seq::empty());
    assert(h + seq!['\n'] + Seq::<char>::empty() =~= h + seq!['\n']);
}

/// The printed optional fields are their lines, joined.
pub proof fn lemma_print_opts_join(lc: LangCfgV)
    ensures
        spec_print_opts(lc) == spec_join_nl(
            (match lc.code_before {
                Some(v) => seq!["code_before"@ + " = "@ + spec_quote(v)],
                None => Seq::<Seq<char>>::empty(),
            }) + (match lc.code_after {
                Some(v) => seq!["code_after"@ + " = "@ + spec_quote(v)],
                None => Seq::<Seq<char>>::empty(),
            }) + (match lc.timeout {
                Some(t) => seq!["timeout"@ + " = "@ + crate::text::spec_dec(t as int)],
                None => Seq::<Seq<char>>::empty(),
            }),
            0,
        ),
{
    reveal_strlit("code_before = ");
    reveal_strlit("code_before");
    reveal_strlit("code_after = ");
    reveal_strlit("code_after");
    reveal_strlit("timeout = ");
    reveal_strlit("timeout");
    reveal_strlit(" = ");
    reveal_strlit("\n");
    let f1 = match lc.code_before {
        Some(v) => seq!["code_before"@ + " = "@ + spec_quote(v)],
        None => Seq::<Seq<char>>::empty(),
    };
    let f2 = match lc.code_after {
        Some(v) => seq!["code_after"@ + " = "@ + spec_quote(v)],
        None => Seq::<Seq<char>>::empty(),
    };
    let f3 = match lc.timeout {
        Some(t) => seq!["timeout"@ + " = "@ + crate::text::spec_dec(t as int)],
        None => Seq::<Seq<char>>::empty(),
    };
    lemma_join_append(f1, f2 + f3);
    lemma_join_append(f2, f3);
    match lc.code_before {
        Some(v) => {
            lemma_join_one("code_before"@ + " = "@ + spec_quote(v));
            assert("code_before = "@ + spec_quote(v) + "\n"@ =~= ("code_before"@ + " = "@
                + spec_quote(v)) + seq!['\n']);
        },
        None => {},
    }
    match lc.code_after {
        Some(v) => {
            lemma_join_one("code_after"@ + " = "@ + spec_quote(v));
            assert("code_after = "@ + spec_quote(v) + "\n"@ =~= ("code_after"@ + " = "@
                + spec_quote(v)) + seq!['\n']);
        },
        None => {},
    }
    match lc.timeout {
        Some(t) => {
            lemma_join_one("timeout"@ + " = "@ + crate::text::spec_dec(t as int));
            assert("timeout = "@ + crate::text::spec_dec(t as int) + "\n"@ =~= ("timeout"@ + " = "@
                + crate::text::spec_dec(t as int)) + seq!['\n']);
        },
        None => {},
    }
    assert(spec_print_opts(lc) =~= spec_join_nl(f1 + (f2 + f3), 0));
    assert(f1 + (f2 + f3) =~= f1 + f2 + f3);
}

/// The printed backend fields are their lines, joined.
pub proof fn lemma_print_backend_join(b: crate::BackendV)
    ensures
        spec_print_backend(b) == spec_join_nl(
            match b {
                crate::BackendV::Exec(bb) => seq!["cmdline"@ + " = "@ + spec_print_list(bb.cmdline)]
                    + (match bb.timeout_prefix {
                    Some(p) => seq!["timeout_prefix"@ + " = "@ + spec_quote(p)],
                    None => Seq::<Seq<char>>::empty(),
                }),
                crate::BackendV::UnixSocket(bb) => seq![
                    "socket_addr"@ + " = "@ + spec_quote(bb.socket_addr),
                ] + (match bb.timeout_cmdline {
                    Some(v) => seq!["timeout_cmdline"@ + " = "@ + spec_print_list(v)],
                    None => Seq::<Seq<char>>::empty(),
                }),
                crate::BackendV::Network(bb) => seq![
                    "network_addr"@ + " = "@ + spec_quote(bb.network_addr),
                ] + (match bb.timeout_cmdline {
                    Some(v) => seq!["timeout_cmdline"@ + " = "@ + spec_print_list(v)],
                    None => Seq::<Seq<char>>::empty(),
                }),
            },
            0,
        ),
{
    reveal_strlit("cmdline = ");
    reveal_strlit("cmdline");
    reveal_strlit("timeout_prefix = ");
    reveal_strlit("timeout_prefix");
    reveal_strlit("socket_addr = ");
    reveal_strlit("socket_addr");
    reveal_strlit("network_addr = ");
    reveal_strlit("network_addr");
    reveal_strlit("timeout_cmdline = ");
    reveal_strlit("timeout_cmdline");
    reveal_strlit(" = ");
    reveal_strlit("\n");
    match b {
        crate::BackendV::Exec(bb) => {
            let l1 = "cmdline"@ + " = "@ + spec_print_list(bb.cmdline);
            let f = match bb.timeout_prefix {
                Some(p) => seq!["timeout_prefix"@ + " = "@ + spec_quote(p)],
                None => Seq::<Seq<char>>::empty(),
            };
            lemma_join_append(seq![l1], f);
            lemma_join_one(l1);
            match bb.timeout_prefix {
                Some(p) => {
                    lemma_join_one("timeout_prefix"@ + " = "@ + spec_quote(p));
                    assert("timeout_prefix = "@ + spec_quote(p) + "\n"@ =~= ("timeout_prefix"@
                        + " = "@ + spec_quote(p)) + seq!['\n']);
                },
                None => {},
            }
            assert(spec_print_backend(b) =~= spec_join_nl(seq![l1] + f, 0));
        },
        crate::BackendV::UnixSocket(bb) => {
            let l1 = "socket_addr"@ + " = "@ + spec_quote(bb.socket_addr);
            let f = match bb.timeout_cmdline {
                Some(v) => seq!["timeout_cmdline"@ + " = "@ + spec_print_list(v)],
                None => Seq::<Seq<char>>::empty(),
            };
            lemma_join_append(seq![l1], f);
            lemma_join_one(l1);
            match bb.timeout_cmdline {
                Some(v) => {
                    lemma_join_one("timeout_cmdline"@ + " = "@ + spec_print_list(v));
                    assert("timeout_cmdline = "@ + spec_print_list(v) + "\n"@ =~= ("timeout_cmdline"@
                        + " = "@ + spec_print_list(v)) + seq!['\n']);
                },
                None => {},
            }
            assert(spec_print_backend(b) =~= spec_join_nl(seq![l1] + f, 0));
        },
        crate::BackendV::Network(bb) => {
            let l1 = "network_addr"@ + " = "@ + spec_quote(bb.network_addr);
            let f = match bb.timeout_cmdline {
                Some(v) => seq!["timeout_cmdline"@ + " = "@ + spec_print_list(v)],
                None => Seq::<Seq<char>>::empty(),
            };
            lemma_join_append(seq![l1], f);
            lemma_join_one(l1);
            match bb.timeout_cmdline {
                Some(v) => {
                    lemma_join_one("timeout_cmdline"@ + " = "@ + spec_print_list(v));
                    assert("timeout_cmdline = "@ + spec_print_list(v) + "\n"@ =~= ("timeout_cmdline"@
                        + " = "@ + spec_print_list(v)) + seq!['\n']);
                },
                None => {},
            }
            assert(spec_print_backend(b) =~= spec_join_nl(seq![l1] + f, 0));
        },
    }
}

/// One printed language section is its lines, joined.
#[verifier::rlimit(80)]
pub proof fn lemma_print_lang_join(name: Seq<char>, lc: LangCfgV)
    ensures
        spec_print_lang(name, lc) == spec_join_nl(spec_lang_lines(name, lc), 0),
{
    reveal_strlit("\n[languages.");
    reveal_strlit("[languages.");
    reveal_strlit("]\n");
    reveal_strlit("]");
    let hdr = "[languages."@ + spec_print_key(name) + "]"@;
    let f1 = match lc.code_before {
        Some(v) => seq!["code_before"@ + " = "@ + spec_quote(v)],
        None => Seq::<Seq<char>>::empty(),
    };
    let f2 = match lc.code_after {
        Some(v) => seq!["code_after"@ + " = "@ + spec_quote(v)],
        None => Seq::<Seq<char>>::empty(),
    };
    let f3 = match lc.timeout {
        Some(t) => seq!["timeout"@ + " = "@ + crate::text::spec_dec(t as int)],
        None => Seq::<Seq<char>>::empty(),
    };
    let bl = match lc.backend {
        crate::BackendV::Exec(bb) => seq!["cmdline"@ + " = "@ + spec_print_list(bb.cmdline)]
            + (match bb.timeout_prefix {
            Some(p) => seq!["timeout_prefix"@ + " = "@ + spec_quote(p)],
            None => Seq::<Seq<char>>::empty(),
        }),
        crate::BackendV::UnixSocket(bb) => seq![
            "socket_addr"@ + " = "@ + spec_quote(bb.socket_addr),
        ] + (match bb.timeout_cmdline {
            Some(v) => seq!["timeout_cmdline"@ + " = "@ + spec_print_list(v)],
            None => Seq::<Seq<char>>::empty(),
        }),
        crate::BackendV::Network(bb) => seq![
            "network_addr"@ + " = "@ + spec_quote(bb.network_addr),
        ] + (match bb.timeout_cmdline {
            Some(v) => seq!["timeout_cmdline"@ + " = "@ + spec_print_list(v)],
            None => Seq::<Seq<char>>::empty(),
        }),
    };
    let rest = f1 + f2 + f3 + bl;
    assert(spec_lang_lines(name, lc) =~= seq![Seq::<char>::empty()] + (seq![hdr] + rest));
    lemma_join_cons(Seq::empty(), seq![hdr] + rest);
    lemma_join_cons(hdr, rest);
    assert(rest =~= (f1 + f2 + f3) + bl);
    lemma_join_append(f1 + f2 + f3, bl);
    lemma_print_opts_join(lc);
    lemma_print_backend_join(lc.backend);
    let opts = spec_print_opts(lc);
    let bk = spec_print_backend(lc.backend);
    assert(spec_join_nl(spec_lang_lines(name, lc), 0) == Seq::<char>::empty() + seq!['\n'] + (hdr
        + seq!['\n'] + (opts + bk)));
    assert(spec_print_lang(name, lc) =~= Seq::<char>::empty() + seq!['\n'] + (hdr + seq!['\n'] + (
    opts + bk)));
}

/// The printed languages from `j` on are their lines, joined.
pub proof fn lemma_print_langs_join(ls: Seq<(Seq<char>, LangCfgV)>, j: int)
    requires
        0 <= j <= ls.len(),
    ensures
        spec_print_langs(ls, j) == spec_join_nl(spec_langs_lines(ls, j), 0),
    decreases ls.len() - j,
{
    if j == ls.len() {
    } else {
        lemma_print_langs_join(ls, j + 1);
        lemma_print_lang_join(ls[j].0, ls[j].1);
        lemma_join_append(spec_lang_lines(ls[j].0, ls[j].1), spec_langs_lines(ls, j + 1));
    }
}

/// The printed configuration is its canonical lines, joined.
pub proof fn lemma_print_config_join(c: CfgV)
    ensures
        spec_print_config(c) == spec_join_nl(spec_config_lines(c), 0),
{
    reveal_strlit("timeout = ");
    reveal_strlit("timeout");
    reveal_strlit(" = ");
    reveal_strlit("\n");
    let l0 = "timeout"@ + " = "@ + crate::text::spec_dec(c.timeout as int);
    lemma_join_cons(l0, spec_langs_lines(c.languages, 0));
    assert(spec_config_lines(c) =~= seq![l0] + spec_langs_lines(c.languages, 0));
    lemma_print_langs_join(c.languages, 0);
    assert(spec_print_config(c) =~= l0 + seq!['\n'] + spec_print_langs(c.languages, 0));
}

/// Concatenations of newline-free pieces are newline-free.
pub proof fn lemma_no_newline_concat(a: Seq<char>, b: Seq<char>)
    requires
        spec_no_newline(a),
        spec_no_newline(b),
    ensures
        spec_no_newline(a + b),
{
    assert forall|i: int| 0 <= i < (a + b).len() implies #[trigger] (a + b)[i] != '\n' by {
        if i < a.len() {
            assert((a + b)[i] == a[i]);
        } else {
            assert((a + b)[i] == b[i - a.len()]);
        }
    }
}

/// A canonical `key = value` line is newline-free.
pub proof fn lemma_kv_no_newline(key: Seq<char>, vtext: Seq<char>)
    requires
        spec_no_newline(key),
        spec_no_newline(vtext),
    ensures
        spec_no_newline(key + " = "@ + vtext),
{
    reveal_strlit(" = ");
    assert(spec_no_newline(" = "@));
    lemma_no_newline_concat(key, " = "@);
    lemma_no_newline_concat(key + " = "@, vtext);
}

/// Every canonical line of a language section is newline-free.
pub proof fn lemma_lang_lines_no_newline(name: Seq<char>, lc: LangCfgV)
    ensures
        forall|k: int|
            0 <= k < spec_lang_lines(name, lc).len() ==> spec_no_newline(
                #[trigger] spec_lang_lines(name, lc)[k],
            ),
{
    reveal_strlit("[languages.");
    reveal_strlit("]");
    reveal_strlit("code_before");
    reveal_strlit("code_after");
    reveal_strlit("timeout");
    reveal_strlit("cmdline");
    reveal_strlit("timeout_prefix");
    reveal_strlit("socket_addr");
    reveal_strlit("network_addr");
    reveal_strlit("timeout_cmdline");
    lemma_print_key_no_newline(name);
    lemma_no_newline_concat("[languages."@, spec_print_key(name));
    lemma_no_newline_concat("[languages."@ + spec_print_key(name), "]"@);
    match lc.code_before {
        Some(v) => {
            lemma_quote_no_newline(v);
            lemma_kv_no_newline("code_before"@, spec_quote(v));
        },
        None => {},
    }
    match lc.code_after {
        Some(v) => {
            lemma_quote_no_newline(v);
            lemma_kv_no_newline("code_after"@, spec_quote(v));
        },
        None => {},
    }
    match lc.timeout {
        Some(t) => {
            lemma_dec_no_newline(t as int);
            lemma_kv_no_newline("timeout"@, crate::text::spec_dec(t as int));
        },
        None => {},
    }
    match lc.backend {
        crate::BackendV::Exec(bb) => {
            lemma_print_list_no_newline(bb.cmdline);
            lemma_kv_no_newline("cmdline"@, spec_print_list(bb.cmdline));
            match bb.timeout_prefix {
                Some(p) => {
                    lemma_quote_no_newline(p);
                    lemma_kv_no_newline("timeout_prefix"@, spec_quote(p));
                },
                None => {},
            }
        },
        crate::BackendV::UnixSocket(bb) => {
            lemma_quote_no_newline(bb.socket_addr);
            lemma_kv_no_newline("socket_addr"@, spec_quote(bb.socket_addr));
            match bb.timeout_cmdline {
                Some(v) => {
                    lemma_print_list_no_newline(v);
                    lemma_kv_no_newline("timeout_cmdline"@, spec_print_list(v));
                },
                None => {},
            }
        },
        crate::BackendV::Network(bb) => {
            lemma_quote_no_newline(bb.network_addr);
            lemma_kv_no_newline("network_addr"@, spec_quote(bb.network_addr));
            match bb.timeout_cmdline {
                Some(v) => {
                    lemma_print_list_no_newline(v);
                    lemma_kv_no_newline("timeout_cmdline"@, spec_print_list(v));
                },
                None => {},
            }
        },
    }
}

/// Every canonical line of a configuration is newline-free.
pub proof fn lemma_config_lines_no_newline(c: CfgV)
    ensures
        forall|k: int|
            0 <= k < spec_config_lines(c).len() ==> spec_no_newline(
                #[trigger] spec_config_lines(c)[k],
            ),
{
    reveal_strlit("timeout");
    lemma_dec_no_newline(c.timeout as int);
    lemma_kv_no_newline("timeout"@, crate::text::spec_dec(c.timeout as int));
    lemma_langs_lines_no_newline(c.languages, 0);
    assert forall|k: int|
        0 <= k < spec_config_lines(c).len() implies spec_no_newline(
        #[trigger] spec_config_lines(c)[k],
    ) by {
        if k >= 1 {
            assert(spec_config_lines(c)[k] == spec_langs_lines(c.languages, 0)[k - 1]);
        }
    }
}

/// Every canonical line of the languages from `j` on is newline-free.
pub proof fn lemma_langs_lines_no_newline(ls: Seq<(Seq<char>, LangCfgV)>, j: int)
    requires
        0 <= j <= ls.len(),
    ensures
        forall|k: int|
            0 <= k < spec_langs_lines(ls, j).len() ==> spec_no_newline(
                #[trigger] spec_langs_lines(ls, j)[k],
            ),
    decreases ls.len() - j,
{
    if j < ls.len() {
        lemma_lang_lines_no_newline(ls[j].0, ls[j].1);
        lemma_langs_lines_no_newline(ls, j + 1);
        let a = spec_lang_lines(ls[j].0, ls[j].1);
        let b = spec_langs_lines(ls, j + 1);
        assert forall|k: int|
            0 <= k < spec_langs_lines(ls, j).len() implies spec_no_newline(
            #[trigger] spec_langs_lines(ls, j)[k],
        ) by {
            if k < a.len() {
                assert(spec_langs_lines(ls, j)[k] == a[k]);
            } else {
                assert(spec_langs_lines(ls, j)[k] == b[k - a.len()]);
            }
        }
    }
}

/// The configuration keys are all bare, and pairwise distinct.
pub proof fn lemma_keys_bare()
    ensures
        spec_bare_ok("code_before"@),
        spec_bare_ok("code_after"@),
        spec_bare_ok("timeout"@),
        spec_bare_ok("cmdline"@),
        spec_bare_ok("timeout_prefix"@),
        spec_bare_ok("socket_addr"@),
        spec_bare_ok("network_addr"@),
        spec_bare_ok("timeout_cmdline"@),
        "code_after"@ != "code_before"@,
        "timeout"@ != "code_before"@ && "timeout"@ != "code_after"@,
        "timeout_prefix"@ != "code_before"@ && "timeout_prefix"@ != "code_after"@,
        "socket_addr"@ != "code_before"@ && "socket_addr"@ != "code_after"@ && "socket_addr"@
            != "timeout_prefix"@,
        "network_addr"@ != "code_before"@ && "network_addr"@ != "code_after"@ && "network_addr"@
            != "timeout_prefix"@ && "network_addr"@ != "socket_addr"@,
        "timeout_cmdline"@ != "cmdline"@,
{
    reveal_strlit("code_before");
    reveal_strlit("code_after");
    reveal_strlit("timeout");
    reveal_strlit("cmdline");
    reveal_strlit("timeout_prefix");
    reveal_strlit("socket_addr");
    reveal_strlit("network_addr");
    reveal_strlit("timeout_cmdline");
    assert("code_before"@.len() == 11);
    assert("code_after"@.len() == 10);
    assert("timeout"@.len() == 7);
    assert("cmdline"@.len() == 7);
    assert("timeout_prefix"@.len() == 14);
    assert("socket_addr"@.len() == 11);
    assert("network_addr"@.len() == 12);
    assert("timeout_cmdline"@.len() == 15);
    assert("socket_addr"@ != "code_before"@) by {
        assert("socket_addr"@[0] == 's');
        assert("code_before"@[0] == 'c');
    }
}

/// One `key = value` step of the assembler over a parsed line.
pub proof fn lemma_assemble_step(
    lines: Seq<Seq<char>>,
    i: int,
    t: u32,
    done: Seq<(Seq<char>, LangCfgV)>,
    name: Seq<char>,
    p: PartialV,
    p2: PartialV,
    lv: LineV,
)
    requires
        0 <= i < lines.len(),
        spec_parse_line(lines[i]) == Some(lv),
        match lv {
            LineV::IntVal(k, n) => k == "timeout"@ && p.timeout is None && p2 == PartialV {
                timeout: Some(n),
                ..p
            },
            LineV::StrVal(k, v) => {
                ||| (k == "code_before"@ && p.code_before is None && p2 == PartialV {
                    code_before: Some(v),
                    ..p
                })
                ||| (k == "code_after"@ && k != "code_before"@ && p.code_after is None && p2
                    == PartialV { code_after: Some(v), ..p })
                ||| (k == "timeout_prefix"@ && k != "code_before"@ && k != "code_after"@
                    && p.timeout_prefix is None && p2 == PartialV { timeout_prefix: Some(v), ..p })
                ||| (k == "socket_addr"@ && k != "code_before"@ && k != "code_after"@ && k
                    != "timeout_prefix"@ && p.socket_addr is None && p2 == PartialV {
                    socket_addr: Some(v),
                    ..p
                })
                ||| (k == "network_addr"@ && k != "code_before"@ && k != "code_after"@ && k
                    != "timeout_prefix"@ && k != "socket_addr"@ && p.network_addr is None && p2
                    == PartialV { network_addr: Some(v), ..p })
            },
            LineV::ListVal(k, v) => {
                ||| (k == "cmdline"@ && p.cmdline is None && p2 == PartialV {
                    cmdline: Some(v),
                    ..p
                })
                ||| (k == "timeout_cmdline"@ && k != "cmdline"@ && p.timeout_cmdline is None && p2
                    == PartialV { timeout_cmdline: Some(v), ..p })
            },
            _ => false,
        },
    ensures
        spec_assemble(lines, i, Some(t), done, Some((name, p))) == spec_assemble(
            lines,
            i + 1,
            Some(t),
            done,
            Some((name, p2)),
        ),
{
}

/// Walking the canonical optional-field lines fills exactly those fields.
#[verifier::rlimit(80)]
pub proof fn lemma_assemble_opts(
    lines: Seq<Seq<char>>,
    i: int,
    t: u32,
    done: Seq<(Seq<char>, LangCfgV)>,
    name: Seq<char>,
    lc: LangCfgV,
    rest: Seq<Seq<char>>,
)
    requires
        0 <= i <= lines.len(),
        lines.skip(i) == spec_opts_lines(lc) + rest,
    ensures
        i + spec_opts_lines(lc).len() <= lines.len(),
        lines.skip(i + spec_opts_lines(lc).len()) =~= rest,
        spec_assemble(lines, i, Some(t), done, Some((name, spec_empty_partial())))
            == spec_assemble(
            lines,
            i + spec_opts_lines(lc).len(),
            Some(t),
            done,
            Some(
                (
                    name,
                    PartialV {
                        code_before: lc.code_before,
                        code_after: lc.code_after,
                        timeout: lc.timeout,
                        ..spec_empty_partial()
                    },
                ),
            ),
        ),
{
    lemma_keys_bare();
    let opts = spec_opts_lines(lc);
    let f1 = match lc.code_before {
        Some(v) => seq!["code_before"@ + " = "@ + spec_quote(v)],
        None => Seq::<Seq<char>>::empty(),
    };
    let f2 = match lc.code_after {
        Some(v) => seq!["code_after"@ + " = "@ + spec_quote(v)],
        None => Seq::<Seq<char>>::empty(),
    };
    let f3 = match lc.timeout {
        Some(t2) => seq!["timeout"@ + " = "@ + crate::text::spec_dec(t2 as int)],
        None => Seq::<Seq<char>>::empty(),
    };
    assert(lines.skip(i).len() == opts.len() + rest.len());
    assert(lines.skip(i + opts.len()) =~= rest) by {
        assert forall|k: int| 0 <= k < rest.len() implies lines.skip(i + opts.len())[k] == rest[k] by {
            assert(lines.skip(i + opts.len())[k] == lines[i + opts.len() + k]);
            assert(lines.skip(i)[opts.len() + k] == lines[i + opts.len() + k]);
            assert((opts + rest)[opts.len() + k] == rest[k]);
        }
    }
    let p0 = spec_empty_partial();
    let i1 = i + f1.len();
    let p1 = match lc.code_before {
        Some(v) => PartialV { code_before: Some(v), ..p0 },
        None => p0,
    };
    match lc.code_before {
        Some(v) => {
            let l = "code_before"@ + " = "@ + spec_quote(v);
            assert(lines[i] == l) by {
                assert(lines.skip(i)[0] == (opts + rest)[0]);
                assert((opts + rest)[0] == opts[0]);
                assert(opts[0] == f1[0]);
            }
            lemma_parse_line_str("code_before"@, v);
            lemma_assemble_step(lines, i, t, done, name, p0, p1, LineV::StrVal("code_before"@, v));
        },
        None => {},
    }
    let i2 = i1 + f2.len();
    let p2 = match lc.code_after {
        Some(v) => PartialV { code_after: Some(v), ..p1 },
        None => p1,
    };
    match lc.code_after {
        Some(v) => {
            let l = "code_after"@ + " = "@ + spec_quote(v);
            assert(lines[i1] == l) by {
                assert(lines.skip(i)[i1 - i] == (opts + rest)[i1 - i]);
                assert((opts + rest)[i1 - i] == opts[i1 - i]);
                assert(opts[i1 - i] == f2[0]);
            }
            lemma_parse_line_str("code_after"@, v);
            lemma_assemble_step(lines, i1, t, done, name, p1, p2, LineV::StrVal("code_after"@, v));
        },
        None => {},
    }
    let i3 = i2 + f3.len();
    let p3 = match lc.timeout {
        Some(t2) => PartialV { timeout: Some(t2), ..p2 },
        None => p2,
    };
    match lc.timeout {
        Some(t2) => {
            let l = "timeout"@ + " = "@ + crate::text::spec_dec(t2 as int);
            assert(lines[i2] == l) by {
                assert(lines.skip(i)[i2 - i] == (opts + rest)[i2 - i]);
                assert((opts + rest)[i2 - i] == opts[i2 - i]);
                assert(opts[i2 - i] == f3[0]);
            }
            lemma_parse_line_int("timeout"@, t2);
            lemma_assemble_step(lines, i2, t, done, name, p2, p3, LineV::IntVal("timeout"@, t2));
        },
        None => {},
    }
    assert(i3 == i + opts.len());
    assert(p3 == PartialV {
        code_before: lc.code_before,
        code_after: lc.code_after,
        timeout: lc.timeout,
        ..spec_empty_partial()
    });
}

/// Walking the canonical backend lines fills exactly the backend fields.
#[verifier::rlimit(80)]
pub proof fn lemma_assemble_backend(
    lines: Seq<Seq<char>>,
    i: int,
    t: u32,
    done: Seq<(Seq<char>, LangCfgV)>,
    name: Seq<char>,
    lc: LangCfgV,
    rest: Seq<Seq<char>>,
)
    requires
        0 <= i <= lines.len(),
        lines.skip(i) == spec_backend_lines(lc.backend) + rest,
    ensures
        i + spec_backend_lines(lc.backend).len() <= lines.len(),
        lines.skip(i + spec_backend_lines(lc.backend).len()) =~= rest,
        spec_assemble(
            lines,
            i,
            Some(t),
            done,
            Some(
                (
                    name,
                    PartialV {
                        code_before: lc.code_before,
                        code_after: lc.code_after,
                        timeout: lc.timeout,
                        ..spec_empty_partial()
                    },
                ),
            ),
        ) == spec_assemble(
            lines,
            i + spec_backend_lines(lc.backend).len(),
            Some(t),
            done,
            Some((name, spec_partial_of(lc))),
        ),
{
    lemma_keys_bare();
    let bl = spec_backend_lines(lc.backend);
    assert(lines.skip(i).len() == bl.len() + rest.len());
    assert(lines.skip(i + bl.len()) =~= rest) by {
        assert forall|k: int| 0 <= k < rest.len() implies lines.skip(i + bl.len())[k] == rest[k] by {
            assert(lines.skip(i + bl.len())[k] == lines[i + bl.len() + k]);
            assert(lines.skip(i)[bl.len() + k] == lines[i + bl.len() + k]);
            assert((bl + rest)[bl.len() + k] == rest[k]);
        }
    }
    let p0 = PartialV {
        code_before: lc.code_before,
        code_after: lc.code_after,
        timeout: lc.timeout,
        ..spec_empty_partial()
    };
    match lc.backend {
        crate::BackendV::Exec(bb) => {
            let l1 = "cmdline"@ + " = "@ + spec_print_list(bb.cmdline);
            assert(lines[i] == l1) by {
                assert(lines.skip(i)[0] == (bl + rest)[0]);
                assert(bl[0] == l1);
            }
            lemma_parse_line_list("cmdline"@, bb.cmdline);
            let p1 = PartialV { cmdline: Some(bb.cmdline), ..p0 };
            lemma_assemble_step(
                lines,
                i,
                t,
                done,
                name,
                p0,
                p1,
                LineV::ListVal("cmdline"@, bb.cmdline),
            );
            match bb.timeout_prefix {
                Some(p) => {
                    let l2 = "timeout_prefix"@ + " = "@ + spec_quote(p);
                    assert(lines[i + 1] == l2) by {
                        assert(lines.skip(i)[1] == (bl + rest)[1]);
                        assert(bl[1] == l2);
                    }
                    lemma_parse_line_str("timeout_prefix"@, p);
                    let p2 = PartialV { timeout_prefix: Some(p), ..p1 };
                    lemma_assemble_step(
                        lines,
                        i + 1,
                        t,
                        done,
                        name,
                        p1,
                        p2,
                        LineV::StrVal("timeout_prefix"@, p),
                    );
                    assert(p2 == spec_partial_of(lc));
                },
                None => {
                    assert(p1 == spec_partial_of(lc));
                },
            }
        },
        crate::BackendV::UnixSocket(bb) => {
            let l1 = "socket_addr"@ + " = "@ + spec_quote(bb.socket_addr);
            assert(lines[i] == l1) by {
                assert(lines.skip(i)[0] == (bl + rest)[0]);
                assert(bl[0] == l1);
            }
            lemma_parse_line_str("socket_addr"@, bb.socket_addr);
            let p1 = PartialV { socket_addr: Some(bb.socket_addr), ..p0 };
            lemma_assemble_step(
                lines,
                i,
                t,
                done,
                name,
                p0,
                p1,
                LineV::StrVal("socket_addr"@, bb.socket_addr),
            );
            match bb.timeout_cmdline {
                Some(v) => {
                    let l2 = "timeout_cmdline"@ + " = "@ + spec_print_list(v);
                    assert(lines[i + 1] == l2) by {
                        assert(lines.skip(i)[1] == (bl + rest)[1]);
                        assert(bl[1] == l2);
                    }
                    lemma_parse_line_list("timeout_cmdline"@, v);
                    let p2 = PartialV { timeout_cmdline: Some(v), ..p1 };
                    lemma_assemble_step(
                        lines,
                        i + 1,
                        t,
                        done,
                        name,
                        p1,
                        p2,
                        LineV::ListVal("timeout_cmdline"@, v),
                    );
                    assert(p2 == spec_partial_of(lc));
                },
                None => {
                    assert(p1 == spec_partial_of(lc));
                },
            }
        },
        crate::BackendV::Network(bb) => {
            let l1 = "network_addr"@ + " = "@ + spec_quote(bb.network_addr);
            assert(lines[i] == l1) by {
                assert(lines.skip(i)[0] == (bl + rest)[0]);
                assert(bl[0] == l1);
            }
            lemma_parse_line_str("network_addr"@, bb.network_addr);
            let p1 = PartialV { network_addr: Some(bb.network_addr), ..p0 };
            lemma_assemble_step(
                lines,
                i,
                t,
                done,
                name,
                p0,
                p1,
                LineV::StrVal("network_addr"@, bb.network_addr),
            );
            match bb.timeout_cmdline {
                Some(v) => {
                    let l2 = "timeout_cmdline"@ + " = "@ + spec_print_list(v);
                    assert(lines[i + 1] == l2) by {
                        assert(lines.skip(i)[1] == (bl + rest)[1]);
                        assert(bl[1] == l2);
                    }
                    lemma_parse_line_list("timeout_cmdline"@, v);
                    let p2 = PartialV { timeout_cmdline: Some(v), ..p1 };
                    lemma_assemble_step(
                        lines,
                        i + 1,
                        t,
                        done,
                        name,
                        p1,
                        p2,
                        LineV::ListVal("timeout_cmdline"@, v),
                    );
                    assert(p2 == spec_partial_of(lc));
                },
                None => {
                    assert(p1 == spec_partial_of(lc));
                },
            }
        },
    }
}

/// Pairwise distinct language names.
pub open spec fn spec_distinct_names(ls: Seq<(Seq<char>, LangCfgV)>) -> bool {
    forall|a: int, b: int| 0 <= a < b < ls.len() ==> (#[trigger] ls[a]).0 != (#[trigger] ls[b]).0
}

/// Names from `j` on are pairwise distinct and absent from `done`.
pub open spec fn spec_fresh_names(
    done: Seq<(Seq<char>, LangCfgV)>,
    ls: Seq<(Seq<char>, LangCfgV)>,
    j: int,
) -> bool {
    &&& forall|a: int, b: int|
        j <= a < b < ls.len() ==> (#[trigger] ls[a]).0 != (#[trigger] ls[b]).0
    &&& forall|a: int| j <= a < ls.len() ==> !spec_contains_name(done, (#[trigger] ls[a]).0)
}

/// Folding the canonical lines of the languages from `j` on extends the
/// gathered records with exactly those languages.
pub proof fn lemma_assemble_printed_langs(
    lines: Seq<Seq<char>>,
    i: int,
    ls: Seq<(Seq<char>, LangCfgV)>,
    j: int,
    t: u32,
    done: Seq<(Seq<char>, LangCfgV)>,
    cur: Option<(Seq<char>, PartialV)>,
    d2: Seq<(Seq<char>, LangCfgV)>,
)
    requires
        0 <= i <= lines.len(),
        0 <= j <= ls.len(),
        lines.skip(i) == spec_langs_lines(ls, j),
        spec_close(done, cur) == Some(d2),
        spec_fresh_names(d2, ls, j),
    ensures
        spec_assemble(lines, i, Some(t), done, cur) == Some(
            CfgV { timeout: t, languages: d2 + ls.skip(j) },
        ),
    decreases ls.len() - j,
{
    if j == ls.len() {
        assert(spec_langs_lines(ls, j) =~= Seq::<Seq<char>>::empty());
        assert(lines.skip(i).len() == 0);
        assert(i == lines.len());
        assert(d2 + ls.skip(j) =~= d2);
    } else {
        let nl = ls[j];
        let name = nl.0;
        let lc = nl.1;
        let ll = spec_lang_lines(name, lc);
        let restl = spec_langs_lines(ls, j + 1);
        assert(lines.skip(i) == ll + restl);
        assert(lines.skip(i).len() == ll.len() + restl.len());
        assert(lines[i] == Seq::<char>::empty()) by {
            assert(lines.skip(i)[0] == (ll + restl)[0]);
            assert(ll[0] == Seq::<char>::empty());
        }
        lemma_parse_line_blank();
        assert(spec_assemble(lines, i, Some(t), done, cur) == spec_assemble(
            lines,
            i + 1,
            Some(t),
            done,
            cur,
        ));
        let hdr = "[languages."@ + spec_print_key(name) + "]"@;
        assert(lines[i + 1] == hdr) by {
            assert(lines.skip(i)[1] == (ll + restl)[1]);
            assert(ll[1] == hdr);
        }
        lemma_parse_line_header(name);
        assert(spec_assemble(lines, i + 1, Some(t), done, cur) == spec_assemble(
            lines,
            i + 2,
            Some(t),
            d2,
            Some((name, spec_empty_partial())),
        ));
        let opts = spec_opts_lines(lc);
        let bl = spec_backend_lines(lc.backend);
        assert(lines.skip(i + 2) =~= opts + (bl + restl)) by {
            assert forall|k: int|
                0 <= k < lines.skip(i + 2).len() implies lines.skip(i + 2)[k] == (opts + (bl
                + restl))[k] by {
                assert(lines.skip(i + 2)[k] == lines[i + 2 + k]);
                assert(lines.skip(i)[k + 2] == lines[i + 2 + k]);
                assert((ll + restl)[k + 2] == (opts + (bl + restl))[k]) by {
                    if k + 2 < ll.len() {
                        assert((ll + restl)[k + 2] == ll[k + 2]);
                        if k < opts.len() {
                            assert(ll[k + 2] == opts[k]);
                        } else {
                            assert(ll[k + 2] == bl[k - opts.len()]);
                        }
                    } else {
                        assert((ll + restl)[k + 2] == restl[k + 2 - ll.len()]);
                    }
                }
            }
        }
        lemma_assemble_opts(lines, i + 2, t, d2, name, lc, bl + restl);
        let i3 = i + 2 + opts.len();
        lemma_assemble_backend(lines, i3, t, d2, name, lc, restl);
        let i4 = i3 + bl.len();
        lemma_finalize_partial_of(lc);
        assert(!spec_contains_name(d2, name));
        let d3 = d2.push((name, lc));
        assert(spec_close(d2, Some((name, spec_partial_of(lc)))) == Some(d3));
        assert(spec_fresh_names(d3, ls, j + 1)) by {
            assert forall|a: int|
                j + 1 <= a < ls.len() implies !spec_contains_name(d3, (#[trigger] ls[a]).0) by {
                if spec_contains_name(d3, ls[a].0) {
                    let idx = choose|idx: int|
                        0 <= idx < d3.len() && (#[trigger] d3[idx]).0 == ls[a].0;
                    if idx < d2.len() {
                        assert(d3[idx] == d2[idx]);
                        assert(spec_contains_name(d2, ls[a].0));
                    } else {
                        assert(d3[idx] == (name, lc));
                        assert(ls[a].0 == name);
                        assert(ls[j].0 != ls[a].0);
                    }
                }
            }
        }
        lemma_assemble_printed_langs(
            lines,
            i4,
            ls,
            j + 1,
            t,
            d2,
            Some((name, spec_partial_of(lc))),
            d3,
        );
        assert(d3 + ls.skip(j + 1) =~= d2 + ls.skip(j)) by {
            assert(ls.skip(j)[0] == nl);
            assert(forall|k: int| 0 <= k < ls.skip(j + 1).len() ==> #[trigger] ls.skip(j + 1)[k]
                == ls.skip(j)[k + 1]);
        }
    }
}

/// Printing a configuration and parsing the text back yields the same
/// configuration, provided the language names are distinct (a duplicate
/// would be printed twice and rejected by the parser).
pub proof fn lemma_print_parse_round_trip(c: CfgV)
    requires
        spec_distinct_names(c.languages),
    ensures
        spec_parse_config(spec_print_config(c)) == Some(c),
{
    lemma_print_config_join(c);
    lemma_config_lines_no_newline(c);
    lemma_split_join(spec_config_lines(c), 0);
    let lines = spec_config_lines(c);
    assert(spec_split_lines(spec_print_config(c)) == lines.skip(0));
    assert(lines.skip(0) =~= lines);
    lemma_keys_bare();
    let l0 = "timeout"@ + " = "@ + crate::text::spec_dec(c.timeout as int);
    assert(lines[0] == l0) by {
        assert(lines == seq![l0] + spec_langs_lines(c.languages, 0));
        assert((seq![l0] + spec_langs_lines(c.languages, 0))[0] == l0);
    }
    lemma_parse_line_int("timeout"@, c.timeout);
    let none_done = Seq::<(Seq<char>, LangCfgV)>::empty();
    assert(spec_assemble(lines, 0, None, none_done, None) == spec_assemble(
        lines,
        1,
        Some(c.timeout),
        none_done,
        None,
    ));
    assert(lines.skip(1) =~= spec_langs_lines(c.languages, 0)) by {
        assert(lines == seq![l0] + spec_langs_lines(c.languages, 0));
    }
    assert(spec_close(none_done, None) == Some(none_done));
    assert(spec_fresh_names(none_done, c.languages, 0));
    lemma_assemble_printed_langs(
        lines,
        1,
        c.languages,
        0,
        c.timeout,
        none_done,
        None,
        none_done,
    );
    assert(none_done + c.languages.skip(0) =~= c.languages);
    assert(CfgV { timeout: c.timeout, languages: c.languages } == c);
}

/// The whole text, parsed: its lines folded from an empty state.
pub open spec fn spec_parse_config(s: Seq<char>) -> Option<CfgV> {
    spec_assemble(spec_split_lines(s), 0, None, Seq::empty(), None)
}

/// Parses the configuration text. On failure, the error is the 1-based
/// number of the line where parsing stopped (the line count when the
/// document ended before it was complete).
pub fn parse_config(text: &str) -> (r: Result<EvalServiceCfg, usize>)
    ensures
        match r {
            Ok(cfg) => spec_parse_config(text@) == Some(cfg@),
            Err(_) => spec_parse_config(text@) is None,
        },
{
    let chars = crate::text::to_chars(text);
    let lines = split_lines(&chars);
    let ghost lv = spec_line_views(lines@);
    let mut timeout: Option<u32> = None;
    let mut done: Vec<(String, LangCfg)> = Vec::new();
    let mut cur_name: Option<String> = None;
    let mut partial = Partial::new();
    let mut i: usize = 0;
    proof {
        assert(spec_entry_views(done@) =~= Seq::<(Seq<char>, LangCfgV)>::empty());
    }
    while i < lines.len()
        invariant
            0 <= i <= lines@.len(),
            lv == spec_line_views(lines@),
            lv.len() == lines@.len(),
            cur_name is None ==> partial@ == spec_empty_partial(),
            spec_parse_config(text@) == spec_assemble(
                lv,
                i as int,
                timeout,
                spec_entry_views(done@),
                spec_cur(cur_name, partial@),
            ),
        decreases lines@.len() - i,
    {
        let ghost t0 = timeout;
        let ghost d0 = spec_entry_views(done@);
        let ghost c0 = spec_cur(cur_name, partial@);
        proof {
            assert(lv[i as int] == lines@[i as int]@);
        }
        let line = match parse_line(&lines[i]) {
            None => {
                return Err(i + 1);
            },
            Some(l) => l,
        };
        match line {
            Line::Blank => {},
            Line::Header(name) => {
                if timeout.is_none() {
                    return Err(i + 1);
                }
                match cur_name {
                    Some(prev) => {
                        let lc = match finalize(partial) {
                            None => {
                                return Err(i + 1);
                            },
                            Some(lc) => lc,
                        };
                        partial = Partial::new();
                        if contains_name(&done, prev.as_str()) {
                            return Err(i + 1);
                        }
                        let ghost dv = spec_entry_views(done@);
                        done.push((prev, lc));
                        proof {
                            assert(spec_entry_views(done@) =~= dv.push(
                                (done@.last().0@, done@.last().1@),
                            ));
                        }
                    },
                    None => {},
                }
                let ghost n0 = name@;
                cur_name = Some(name);
                proof {
                    assert(spec_close(d0, c0) == Some(spec_entry_views(done@)));
                    assert(spec_cur(cur_name, partial@) == Some((n0, spec_empty_partial())));
                    assert(spec_parse_line(lv[i as int]) == Some(LineV::Header(n0)));
                    assert(spec_assemble(lv, i as int, t0, d0, c0) == spec_assemble(
                        lv,
                        i + 1,
                        timeout,
                        spec_entry_views(done@),
                        spec_cur(cur_name, partial@),
                    ));
                }
            },
            Line::IntVal(k, n) => {
                let is_timeout = crate::text::eq_str(k.as_str(), "timeout");
                match &cur_name {
                    None => {
                        if is_timeout && timeout.is_none() {
                            timeout = Some(n);
                        } else {
                            return Err(i + 1);
                        }
                    },
                    Some(_) => {
                        if is_timeout && partial.timeout.is_none() {
                            partial.timeout = Some(n);
                        } else {
                            return Err(i + 1);
                        }
                    },
                }
                proof {
                    assert(spec_assemble(lv, i as int, t0, d0, c0) == spec_assemble(
                        lv,
                        i + 1,
                        timeout,
                        spec_entry_views(done@),
                        spec_cur(cur_name, partial@),
                    ));
                }
            },
            Line::StrVal(k, v) => {
                match &cur_name {
                    None => {
                        return Err(i + 1);
                    },
                    Some(_) => {
                        if crate::text::eq_str(k.as_str(), "code_before")
                            && partial.code_before.is_none() {
                            partial.code_before = Some(v);
                        } else if crate::text::eq_str(k.as_str(), "code_after")
                            && partial.code_after.is_none() {
                            partial.code_after = Some(v);
                        } else if crate::text::eq_str(k.as_str(), "timeout_prefix")
                            && partial.timeout_prefix.is_none() {
                            partial.timeout_prefix = Some(v);
                        } else if crate::text::eq_str(k.as_str(), "socket_addr")
                            && partial.socket_addr.is_none() {
                            partial.socket_addr = Some(v);
                        } else if crate::text::eq_str(k.as_str(), "network_addr")
                            && partial.network_addr.is_none() {
                            partial.network_addr = Some(v);
                        } else {
                            return Err(i + 1);
                        }
                    },
                }
                proof {
                    assert(spec_assemble(lv, i as int, t0, d0, c0) == spec_assemble(
                        lv,
                        i + 1,
                        timeout,
                        spec_entry_views(done@),
                        spec_cur(cur_name, partial@),
                    ));
                }
            },
            Line::ListVal(k, v) => {
                match &cur_name {
                    None => {
                        return Err(i + 1);
                    },
                    Some(_) => {
                        if crate::text::eq_str(k.as_str(), "cmdline") && partial.cmdline.is_none() {
                            partial.cmdline = Some(v);
                        } else if crate::text::eq_str(k.as_str(), "timeout_cmdline")
                            && partial.timeout_cmdline.is_none() {
                            partial.timeout_cmdline = Some(v);
                        } else {
                            return Err(i + 1);
                        }
                    },
                }
                proof {
                    assert(spec_assemble(lv, i as int, t0, d0, c0) == spec_assemble(
                        lv,
                        i + 1,
                        timeout,
                        spec_entry_views(done@),
                        spec_cur(cur_name, partial@),
                    ));
                }
            },
        }
        i += 1;
    }
    let t = match timeout {
        None => {
            return Err(lines.len());
        },
        Some(t) => t,
    };
    match cur_name {
        Some(prev) => {
            let lc = match finalize(partial) {
                None => {
                    return Err(lines.len());
                },
                Some(lc) => lc,
            };
            if contains_name(&done, prev.as_str()) {
                return Err(lines.len());
            }
            let ghost dv = spec_entry_views(done@);
            done.push((prev, lc));
            proof {
                assert(spec_entry_views(done@) =~= dv.push((done@.last().0@, done@.last().1@)));
            }
        },
        None => {},
    }
    let cfg = EvalServiceCfg { timeout: t, languages: done };
    proof {
        assert(cfg@.languages =~= spec_entry_views(cfg.languages@));
        assert(spec_parse_config(text@) == Some(cfg@));
    }
    Ok(cfg)
}

/// The printed form of one character inside a quoted string.
pub open spec fn spec_escape_char(c: char) -> Seq<char> {
    if c == '"' {
        seq!['\\', '"']
    } else if c == '\\' {
        seq!['\\', '\\']
    } else if c == '\n' {
        seq!['\\', 'n']
    } else if c == '\t' {
        seq!['\\', 't']
    } else if c == '\r' {
        seq!['\\', 'r']
    } else {
        seq![c]
    }
}

/// The printed form of a string's content, character by character.
pub open spec fn spec_escape(s: Seq<char>) -> Seq<char>
    decreases s.len(),
{
    if s.len() == 0 {
        Seq::empty()
    } else {
        spec_escape_char(s[0]) + spec_escape(s.drop_first())
    }
}

/// Escaping one more character appends its escape.
pub proof fn lemma_escape_snoc(s: Seq<char>, c: char)
    ensures
        spec_escape(s.push(c)) == spec_escape(s) + spec_escape_char(c),
    decreases s.len(),
{
    if s.len() == 0 {
        let t = s.push(c);
        assert(t.drop_first() =~= Seq::<char>::empty());
        assert(t[0] == c);
        assert(spec_escape(t) == spec_escape_char(c) + spec_escape(t.drop_first()));
        assert(spec_escape(Seq::<char>::empty()) == Seq::<char>::empty());
        assert(spec_escape(t) =~= spec_escape(s) + spec_escape_char(c));
    } else {
        let t = s.push(c);
        assert(t.drop_first() =~= s.drop_first().push(c));
        assert(t[0] == s[0]);
        lemma_escape_snoc(s.drop_first(), c);
        assert(spec_escape(t) == spec_escape_char(s[0]) + spec_escape(s.drop_first().push(c)));
        assert(spec_escape(s) == spec_escape_char(s[0]) + spec_escape(s.drop_first()));
        assert(spec_escape(t) =~= spec_escape(s) + spec_escape_char(c));
    }
}

/// The printed form of a string value: quoted and escaped.
pub open spec fn spec_quote(s: Seq<char>) -> Seq<char> {
    seq!['"'] + spec_escape(s) + seq!['"']
}

/// Appends the quoted form of `s`.
fn push_quoted(out: &mut String, s: &str)
    ensures
        final(out)@ == old(out)@ + spec_quote(s@),
{
    crate::text::push_char(out, '"');
    let len = s.unicode_len();
    let mut i: usize = 0;
    while i < len
        invariant
            0 <= i <= len,
            len == s@.len(),
            out@ == old(out)@ + seq!['"'] + spec_escape(s@.take(i as int)),
        decreases len - i,
    {
        let c = s.get_char(i);
        match c {
            '"' => {
                crate::text::push_char(out, '\\');
                crate::text::push_char(out, '"');
            },
            '\\' => {
                crate::text::push_char(out, '\\');
                crate::text::push_char(out, '\\');
            },
            '\n' => {
                crate::text::push_char(out, '\\');
                crate::text::push_char(out, 'n');
            },
            '\t' => {
                crate::text::push_char(out, '\\');
                crate::text::push_char(out, 't');
            },
            '\r' => {
                crate::text::push_char(out, '\\');
                crate::text::push_char(out, 'r');
            },
            _ => {
                crate::text::push_char(out, c);
            },
        }
        proof {
            lemma_escape_snoc(s@.take(i as int), c);
            assert(s@.take(i as int).push(c) =~= s@.take(i + 1));
            assert(out@ =~= old(out)@ + seq!['"'] + spec_escape(s@.take(i + 1)));
        }
        i += 1;
    }
    crate::text::push_char(out, '"');
    proof {
        assert(s@.take(len as int) =~= s@);
        assert(out@ =~= old(out)@ + spec_quote(s@));
    }
}

/// Whether a key can be printed bare: non-empty, bare characters only.
pub open spec fn spec_bare_ok(s: Seq<char>) -> bool {
    s.len() > 0 && forall|i: int| 0 <= i < s.len() ==> spec_is_bare(#[trigger] s[i])
}

fn bare_ok(s: &str) -> (r: bool)
    ensures
        r == spec_bare_ok(s@),
{
    let len = s.unicode_len();
    if len == 0 {
        return false;
    }
    let mut i: usize = 0;
    while i < len
        invariant
            0 <= i <= len,
            len == s@.len(),
            forall|j: int| 0 <= j < i ==> spec_is_bare(#[trigger] s@[j]),
        decreases len - i,
    {
        if !is_bare(s.get_char(i)) {
            return false;
        }
        i += 1;
    }
    true
}

/// The printed form of a key: bare when possible, quoted otherwise.
pub open spec fn spec_print_key(s: Seq<char>) -> Seq<char> {
    if spec_bare_ok(s) {
        s
    } else {
        spec_quote(s)
    }
}

/// Appends the printed form of a key.
fn push_key(out: &mut String, s: &str)
    ensures
        final(out)@ == old(out)@ + spec_print_key(s@),
{
    if bare_ok(s) {
        out.append(s);
    } else {
        push_quoted(out, s);
    }
}

/// The printed items of a string list, from `i` on: quoted, separated by
/// `", "`.
pub open spec fn spec_print_items(items: Seq<Seq<char>>, i: int) -> Seq<char>
    decreases items.len() - i,
{
    if !(0 <= i < items.len()) {
        Seq::empty()
    } else if i == items.len() - 1 {
        spec_quote(items[i])
    } else {
        spec_quote(items[i]) + ", "@ + spec_print_items(items, i + 1)
    }
}

/// The printed form of a string list.
pub open spec fn spec_print_list(items: Seq<Seq<char>>) -> Seq<char> {
    seq!['['] + spec_print_items(items, 0) + seq![']']
}

/// Appends the printed form of a string list.
fn push_list(out: &mut String, items: &Vec<String>)
    ensures
        final(out)@ == old(out)@ + spec_print_list(crate::spec_views(items@)),
{
    let ghost itemsv = crate::spec_views(items@);
    crate::text::push_char(out, '[');
    let mut i: usize = 0;
    while i < items.len()
        invariant
            0 <= i <= items@.len(),
            itemsv == crate::spec_views(items@),
            itemsv.len() == items@.len(),
            out@ + spec_print_items(itemsv, i as int) == old(out)@ + seq!['['] + spec_print_items(
                itemsv,
                0,
            ),
        decreases items@.len() - i,
    {
        push_quoted(out, items[i].as_str());
        if i + 1 < items.len() {
            out.append(", ");
            proof {
                assert(out@ + spec_print_items(itemsv, i + 1) =~= old(out)@ + seq!['[']
                    + spec_print_items(itemsv, 0));
            }
        } else {
            proof {
                assert(out@ + spec_print_items(itemsv, i + 1) =~= old(out)@ + seq!['[']
                    + spec_print_items(itemsv, 0));
            }
        }
        i += 1;
    }
    crate::text::push_char(out, ']');
    proof {
        assert(out@ =~= old(out)@ + spec_print_list(itemsv));
    }
}

/// The value accumulated by reading digits onto `acc`.
pub open spec fn spec_acc_val(acc: int, ds: Seq<char>) -> int
    decreases ds.len(),
{
    if ds.len() == 0 {
        acc
    } else {
        spec_acc_val(acc * 10 + spec_digit_val(ds[0]), ds.drop_first())
    }
}

/// Every character of a decimal numeral is a digit, and a digit's
/// character reads back as its value.
pub proof fn lemma_digit_char_val(d: int)
    requires
        0 <= d <= 9,
    ensures
        spec_is_digit(crate::text::spec_digit(d)),
        spec_digit_val(crate::text::spec_digit(d)) == d,
{
    assert((((d + 48) as u8) as char) as u32 == (d + 48) as u32);
}

/// Every character of a decimal numeral is a digit.
pub proof fn lemma_dec_digits(n: int)
    requires
        n >= 0,
    ensures
        forall|i: int|
            0 <= i < crate::text::spec_dec(n).len() ==> spec_is_digit(
                #[trigger] crate::text::spec_dec(n)[i],
            ),
    decreases n,
{
    if n < 10 {
        lemma_digit_char_val(n);
        assert(crate::text::spec_dec(n)[0] == crate::text::spec_digit(n));
    } else {
        lemma_dec_digits(n / 10);
        lemma_digit_char_val(n % 10);
        let prev = crate::text::spec_dec(n / 10);
        assert forall|i: int|
            0 <= i < crate::text::spec_dec(n).len() implies spec_is_digit(
            #[trigger] crate::text::spec_dec(n)[i],
        ) by {
            if i < prev.len() {
                assert(crate::text::spec_dec(n)[i] == prev[i]);
            } else {
                assert(crate::text::spec_dec(n)[i] == crate::text::spec_digit(n % 10));
            }
        }
    }
}

/// Reading one more digit onto the end multiplies by ten and adds it.
pub proof fn lemma_acc_val_snoc(acc: int, ds: Seq<char>, c: char)
    ensures
        spec_acc_val(acc, ds.push(c)) == spec_acc_val(acc, ds) * 10 + spec_digit_val(c),
    decreases ds.len(),
{
    if ds.len() == 0 {
        assert(ds.push(c)[0] == c);
        assert(ds.push(c).drop_first() =~= Seq::<char>::empty());
        assert(spec_acc_val(acc, ds.push(c)) == spec_acc_val(
            acc * 10 + spec_digit_val(c),
            Seq::<char>::empty(),
        ));
    } else {
        assert(ds.push(c)[0] == ds[0]);
        assert(ds.push(c).drop_first() =~= ds.drop_first().push(c));
        lemma_acc_val_snoc(acc * 10 + spec_digit_val(ds[0]), ds.drop_first(), c);
        assert(spec_acc_val(acc, ds.push(c)) == spec_acc_val(
            acc * 10 + spec_digit_val(ds[0]),
            ds.drop_first().push(c),
        ));
    }
}

/// The numeral of `n` reads back as `n`.
pub proof fn lemma_acc_val_dec(n: int)
    requires
        n >= 0,
    ensures
        spec_acc_val(0, crate::text::spec_dec(n)) == n,
    decreases n,
{
    if n < 10 {
        lemma_digit_char_val(n);
        assert(crate::text::spec_dec(n) == seq![crate::text::spec_digit(n)]);
        assert(seq![crate::text::spec_digit(n)][0] == crate::text::spec_digit(n));
        assert(seq![crate::text::spec_digit(n)].drop_first() =~= Seq::<char>::empty());
        assert(spec_acc_val(0, crate::text::spec_dec(n)) == spec_acc_val(
            0 * 10 + spec_digit_val(crate::text::spec_digit(n)),
            Seq::<char>::empty(),
        ));
    } else {
        lemma_acc_val_dec(n / 10);
        lemma_digit_char_val(n % 10);
        lemma_acc_val_snoc(0, crate::text::spec_dec(n / 10), crate::text::spec_digit(n % 10));
    }
}

/// Accumulating digits never shrinks the value.
pub proof fn lemma_acc_val_grows(acc: int, ds: Seq<char>)
    requires
        acc >= 0,
        forall|i: int| 0 <= i < ds.len() ==> spec_is_digit(#[trigger] ds[i]),
    ensures
        spec_acc_val(acc, ds) >= acc,
    decreases ds.len(),
{
    if ds.len() > 0 {
        assert(spec_is_digit(ds[0]));
        assert(forall|i: int|
            0 <= i < ds.drop_first().len() ==> spec_is_digit(#[trigger] ds.drop_first()[i]));
        lemma_acc_val_grows(acc * 10 + spec_digit_val(ds[0]), ds.drop_first());
    }
}

/// Scanning a digit run surrounded by non-digits reads exactly its value.
pub proof fn lemma_scan_digit_run(s: Seq<char>, pre: Seq<char>, ds: Seq<char>, rest: Seq<char>, acc: u32)
    requires
        s == pre + ds + rest,
        forall|i: int| 0 <= i < ds.len() ==> spec_is_digit(#[trigger] ds[i]),
        rest.len() == 0 || !spec_is_digit(rest[0]),
        0 <= spec_acc_val(acc as int, ds) <= 0xffff_ffff,
    ensures
        spec_scan_u32(s, pre.len() as int, acc) == Some(
            (spec_acc_val(acc as int, ds) as u32, (pre.len() + ds.len()) as int),
        ),
    decreases ds.len(),
{
    let i = pre.len() as int;
    if ds.len() == 0 {
        if rest.len() == 0 {
            assert(!(0 <= i < s.len()));
        } else {
            assert(s[i] == rest[0]);
        }
    } else {
        assert(s[i] == ds[0]);
        let d = spec_digit_val(ds[0]);
        assert(forall|k: int|
            0 <= k < ds.drop_first().len() ==> spec_is_digit(#[trigger] ds.drop_first()[k]));
        lemma_acc_val_grows((acc * 10 + d) as int, ds.drop_first());
        assert(spec_acc_val(acc as int, ds) == spec_acc_val(acc as int * 10 + d, ds.drop_first()));
        assert(acc * 10 + d <= 0xffff_ffff);
        assert(!(acc > (0xffff_ffff - d) / 10));
        assert((pre + ds + rest) =~= (pre.push(ds[0])) + ds.drop_first() + rest);
        lemma_scan_digit_run(s, pre.push(ds[0]), ds.drop_first(), rest, (acc * 10 + d) as u32);
    }
}

/// Scanning the escaped form of a string, followed by the closing quote,
/// recovers exactly the string.
pub proof fn lemma_scan_escaped(
    s: Seq<char>,
    pre: Seq<char>,
    v: Seq<char>,
    rest: Seq<char>,
    acc: Seq<char>,
)
    requires
        s == pre + spec_escape(v) + seq!['"'] + rest,
    ensures
        spec_scan_string(s, pre.len() as int, acc) == Some(
            (acc + v, (pre.len() + spec_escape(v).len() + 1) as int),
        ),
    decreases v.len(),
{
    if v.len() == 0 {
        assert(spec_escape(v) =~= Seq::<char>::empty());
        assert(s[pre.len() as int] == '"');
        assert(acc + v =~= acc);
    } else {
        let c0 = v[0];
        let e0 = spec_escape_char(c0);
        let v1 = v.drop_first();
        assert(spec_escape(v) == e0 + spec_escape(v1));
        let pre2 = pre + e0;
        if c0 == '"' || c0 == '\\' || c0 == '\n' || c0 == '\t' || c0 == '\r' {
            assert(e0.len() == 2 && e0[0] == '\\' && spec_unescape_char(e0[1]) == Some(c0));
            assert(s[pre.len() as int] == '\\');
            assert(s[pre.len() as int + 1] == e0[1]);
            assert(s =~= pre2 + spec_escape(v1) + seq!['"'] + rest);
            lemma_scan_escaped(s, pre2, v1, rest, acc.push(c0));
            assert(acc.push(c0) + v1 =~= acc + v);
        } else {
            assert(e0 =~= seq![c0]);
            assert(s[pre.len() as int] == c0);
            assert(c0 != '"' && c0 != '\\');
            assert(s =~= pre2 + spec_escape(v1) + seq!['"'] + rest);
            lemma_scan_escaped(s, pre2, v1, rest, acc.push(c0));
            assert(acc.push(c0) + v1 =~= acc + v);
        }
    }
}

/// Scanning a run of bare characters followed by something else reads
/// exactly the run.
pub proof fn lemma_scan_bare_run(
    s: Seq<char>,
    pre: Seq<char>,
    w: Seq<char>,
    rest: Seq<char>,
    acc: Seq<char>,
)
    requires
        s == pre + w + rest,
        forall|i: int| 0 <= i < w.len() ==> spec_is_bare(#[trigger] w[i]),
        rest.len() == 0 || !spec_is_bare(rest[0]),
    ensures
        spec_scan_bare(s, pre.len() as int, acc) == (acc + w, (pre.len() + w.len()) as int),
    decreases w.len(),
{
    let i = pre.len() as int;
    if w.len() == 0 {
        if rest.len() == 0 {
            assert(!(0 <= i < s.len()));
        } else {
            assert(s[i] == rest[0]);
        }
        assert(acc + w =~= acc);
    } else {
        assert(s[i] == w[0]);
        assert(forall|k: int|
            0 <= k < w.drop_first().len() ==> spec_is_bare(#[trigger] w.drop_first()[k]));
        assert(s =~= pre.push(w[0]) + w.drop_first() + rest);
        lemma_scan_bare_run(s, pre.push(w[0]), w.drop_first(), rest, acc.push(w[0]));
        assert(acc.push(w[0]) + w.drop_first() =~= acc + w);
    }
}

/// Scanning a printed key — bare or quoted — recovers exactly the key.
pub proof fn lemma_scan_printed_key(s: Seq<char>, pre: Seq<char>, name: Seq<char>, rest: Seq<char>)
    requires
        s == pre + spec_print_key(name) + rest,
        rest.len() > 0,
        !spec_is_bare(rest[0]),
        rest[0] != '"',
        rest[0] != '\'',
    ensures
        spec_scan_key(s, pre.len() as int) == Some(
            (name, (pre.len() + spec_print_key(name).len()) as int),
        ),
{
    let i = pre.len() as int;
    if spec_bare_ok(name) {
        assert(s[i] == name[0]);
        assert(spec_is_bare(name[0]));
        assert(!(name[0] == '"')) by {
            if name[0] == '"' {
                assert(('"') as u32 == 34);
            }
        }
        assert(!(name[0] == '\'')) by {
            if name[0] == '\'' {
                assert(('\'') as u32 == 39);
            }
        }
        lemma_scan_bare_run(s, pre, name, rest, Seq::empty());
        assert(Seq::<char>::empty() + name =~= name);
    } else {
        assert(spec_print_key(name) == spec_quote(name));
        assert(s[i] == '"');
        let pre2 = pre.push('"');
        assert(s =~= pre2 + spec_escape(name) + seq!['"'] + rest);
        lemma_scan_escaped(s, pre2, name, rest, Seq::empty());
        assert(Seq::<char>::empty() + name =~= name);
        assert(pre2.len() + spec_escape(name).len() + 1 == pre.len() + spec_quote(name).len());
    }
}

/// The front of a canonical `key = value` line: the key is read, the `=`
/// found, and the value begins three characters after the key.
pub proof fn lemma_kv_front(line: Seq<char>, key: Seq<char>, vtext: Seq<char>)
    requires
        line == key + " = "@ + vtext,
        spec_bare_ok(key),
        vtext.len() > 0 ==> !spec_is_space(vtext[0]),
    ensures
        spec_skip_spaces(line, 0) == 0,
        line[0] != '#' && line[0] != '[',
        spec_scan_key(line, 0) == Some((key, key.len() as int)),
        spec_skip_spaces(line, key.len() as int) == key.len() + 1,
        line[key.len() as int + 1] == '=',
        spec_skip_spaces(line, key.len() as int + 2) == key.len() + 3,
        key.len() + 3 < line.len() || vtext.len() == 0,
        vtext.len() > 0 ==> line[key.len() as int + 3] == vtext[0],
{
    reveal_strlit(" = ");
    assert(line[0] == key[0]);
    assert(spec_is_bare(key[0]));
    assert(!spec_is_space(line[0])) by {
        if spec_is_space(key[0]) {
            assert((' ') as u32 == 32 && ('\t') as u32 == 9 && ('\r') as u32 == 13);
        }
    }
    assert(line[0] != '#') by {
        if key[0] == '#' {
            assert(('#') as u32 == 35);
        }
    }
    assert(line[0] != '[') by {
        if key[0] == '[' {
            assert(('[') as u32 == 91);
        }
    }
    let k = key.len() as int;
    assert(line[k] == ' ' && line[k + 1] == '=' && line[k + 2] == ' ');
    assert(" = "@.len() == 3);
    assert(spec_print_key(key) == key);
    assert(Seq::<char>::empty() + spec_print_key(key) + (" = "@ + vtext) =~= line);
    assert((" = "@ + vtext)[0] == ' ');
    assert(!spec_is_bare(' ') && ' ' != '"' && ' ' != '\'') by {
        assert((' ') as u32 == 32 && ('"') as u32 == 34 && ('\'') as u32 == 39);
    }
    lemma_scan_printed_key(line, Seq::empty(), key, " = "@ + vtext);
    assert(!spec_is_space(line[k + 1])) by {
        assert(('=') as u32 == 61 && (' ') as u32 == 32 && ('\t') as u32 == 9 && ('\r') as u32
            == 13);
    }
    assert(spec_skip_spaces(line, k) == spec_skip_spaces(line, k + 1));
    if vtext.len() == 0 {
        assert(spec_skip_spaces(line, k + 2) == spec_skip_spaces(line, k + 3));
        assert(spec_skip_spaces(line, k + 3) == k + 3);
    } else {
        assert(line[k + 3] == vtext[0]);
        assert(spec_skip_spaces(line, k + 2) == spec_skip_spaces(line, k + 3));
        assert(spec_skip_spaces(line, k + 3) == k + 3);
    }
}

/// Scanning the printed items of a list, then the closing bracket,
/// recovers exactly the items.
pub proof fn lemma_scan_printed_items(
    s: Seq<char>,
    i: int,
    pre: Seq<char>,
    items: Seq<Seq<char>>,
    k: int,
    acc: Seq<Seq<char>>,
    rest: Seq<char>,
)
    requires
        0 <= i <= s.len(),
        spec_skip_spaces(s, i) == pre.len(),
        s == pre + spec_print_items(items, k) + seq![']'] + rest,
        0 <= k <= items.len(),
    ensures
        spec_scan_list(s, i, acc) == Some(
            (acc + items.skip(k), (pre.len() + spec_print_items(items, k).len() + 1) as int),
        ),
    decreases items.len() - k,
{
    lemma_skip_spaces_bounds(s, i);
    let j = pre.len() as int;
    if k >= items.len() {
        assert(spec_print_items(items, k) =~= Seq::<char>::empty());
        assert(s[j] == ']');
        assert(acc + items.skip(k) =~= acc);
    } else {
        assert(spec_print_items(items, k).len() >= spec_quote(items[k]).len());
        assert(s[j] == '"');
        let pre2 = pre.push('"');
        let v = items[k];
        let m0 = (pre.len() + spec_quote(v).len()) as int;
        if k == items.len() - 1 {
            assert(spec_print_items(items, k) == spec_quote(v));
            assert(s =~= pre2 + spec_escape(v) + seq!['"'] + (seq![']'] + rest));
            lemma_scan_escaped(s, pre2, v, seq![']'] + rest, Seq::empty());
            assert(Seq::<char>::empty() + v =~= v);
            assert(s[m0] == ']');
            assert(!spec_is_space(']')) by {
                assert((']') as u32 == 93);
            }
            assert(spec_skip_spaces(s, m0) == m0);
            assert(acc.push(v) =~= acc + items.skip(k));
        } else {
            let tail = spec_print_items(items, k + 1);
            assert(spec_print_items(items, k) == spec_quote(v) + ", "@ + tail);
            reveal_strlit(", ");
            assert(s =~= pre2 + spec_escape(v) + seq!['"'] + (", "@ + tail + seq![']'] + rest));
            lemma_scan_escaped(s, pre2, v, ", "@ + tail + seq![']'] + rest, Seq::empty());
            assert(Seq::<char>::empty() + v =~= v);
            assert(s[m0] == ',');
            assert(s[m0 + 1] == ' ');
            assert(!spec_is_space(',')) by {
                assert((',') as u32 == 44);
            }
            assert(spec_skip_spaces(s, m0) == m0);
            let pre3 = pre + spec_quote(v) + ", "@;
            assert(s =~= pre3 + tail + seq![']'] + rest);
            assert(tail.len() > 0 && tail[0] == '"') by {
                assert(tail == spec_quote(items[k + 1]) + ", "@ + spec_print_items(items, k + 2)
                    || tail == spec_quote(items[k + 1]));
                assert(tail[0] == spec_quote(items[k + 1])[0]);
            }
            assert(s[pre3.len() as int] == '"');
            assert(spec_skip_spaces(s, m0 + 1) == spec_skip_spaces(s, m0 + 2));
            assert(spec_skip_spaces(s, m0 + 2) == pre3.len());
            lemma_scan_printed_items(s, m0 + 1, pre3, items, k + 1, acc.push(v), rest);
            assert(acc.push(v) + items.skip(k + 1) =~= acc + items.skip(k));
        }
    }
}

/// A canonical string-valued line parses back exactly.
pub proof fn lemma_parse_line_str(key: Seq<char>, v: Seq<char>)
    requires
        spec_bare_ok(key),
    ensures
        spec_parse_line(key + " = "@ + spec_quote(v)) == Some(LineV::StrVal(key, v)),
{
    let line = key + " = "@ + spec_quote(v);
    let k = key.len() as int;
    assert(spec_quote(v)[0] == '"');
    assert(!spec_is_space('"')) by {
        assert(('"') as u32 == 34);
    }
    lemma_kv_front(line, key, spec_quote(v));
    let pre2 = key + " = "@ + seq!['"'];
    assert(line =~= pre2 + spec_escape(v) + seq!['"'] + Seq::<char>::empty());
    lemma_scan_escaped(line, pre2, v, Seq::empty(), Seq::empty());
    assert(Seq::<char>::empty() + v =~= v);
    reveal_strlit(" = ");
    assert(pre2.len() == k + 4);
    assert(pre2.len() + spec_escape(v).len() + 1 == line.len());
    assert(spec_at_end(line, line.len() as int));
}

/// A canonical integer-valued line parses back exactly.
pub proof fn lemma_parse_line_int(key: Seq<char>, n: u32)
    requires
        spec_bare_ok(key),
    ensures
        spec_parse_line(key + " = "@ + crate::text::spec_dec(n as int)) == Some(
            LineV::IntVal(key, n),
        ),
{
    let ds = crate::text::spec_dec(n as int);
    let line = key + " = "@ + ds;
    let k = key.len() as int;
    lemma_dec_digits(n as int);
    assert(spec_is_digit(ds[0]));
    assert(!spec_is_space(ds[0]) && ds[0] != '"' && ds[0] != '\'' && ds[0] != '[') by {
        assert((' ') as u32 == 32 && ('\t') as u32 == 9 && ('\r') as u32 == 13 && ('"') as u32
            == 34 && ('\'') as u32 == 39 && ('[') as u32 == 91);
    }
    lemma_kv_front(line, key, ds);
    lemma_acc_val_dec(n as int);
    assert(line =~= (key + " = "@) + ds + Seq::<char>::empty());
    lemma_scan_digit_run(line, key + " = "@, ds, Seq::empty(), 0);
    reveal_strlit(" = ");
    assert((key + " = "@).len() == k + 3);
    assert((key + " = "@).len() + ds.len() == line.len());
    assert(spec_at_end(line, line.len() as int));
    assert(spec_scan_u32(line, k + 3, 0) == Some((n, line.len() as int)));
}

/// A canonical list-valued line parses back exactly.
pub proof fn lemma_parse_line_list(key: Seq<char>, items: Seq<Seq<char>>)
    requires
        spec_bare_ok(key),
    ensures
        spec_parse_line(key + " = "@ + spec_print_list(items)) == Some(LineV::ListVal(key, items)),
{
    let body = spec_print_items(items, 0);
    let line = key + " = "@ + spec_print_list(items);
    let k = key.len() as int;
    assert(spec_print_list(items)[0] == '[');
    assert(!spec_is_space('[')) by {
        assert(('[') as u32 == 91);
    }
    lemma_kv_front(line, key, spec_print_list(items));
    reveal_strlit(" = ");
    let pre = key + " = "@ + seq!['['];
    assert(pre.len() == k + 4);
    assert(line =~= pre + body + seq![']'] + Seq::<char>::empty());
    if items.len() == 0 {
        assert(body =~= Seq::<char>::empty());
        assert(line[k + 4] == ']');
        assert(!spec_is_space(']')) by {
            assert((']') as u32 == 93);
        }
        assert(spec_skip_spaces(line, k + 4) == k + 4);
    } else {
        assert(body[0] == spec_quote(items[0])[0]);
        assert(line[k + 4] == '"');
        assert(!spec_is_space('"')) by {
            assert(('"') as u32 == 34);
        }
        assert(spec_skip_spaces(line, k + 4) == k + 4);
    }
    lemma_scan_printed_items(line, k + 4, pre, items, 0, Seq::empty(), Seq::empty());
    assert(Seq::<Seq<char>>::empty() + items.skip(0) =~= items);
    assert(pre.len() + body.len() + 1 == line.len());
    assert(spec_at_end(line, line.len() as int));
}

/// A canonical section-header line parses back exactly.
pub proof fn lemma_parse_line_header(name: Seq<char>)
    ensures
        spec_parse_line("[languages."@ + spec_print_key(name) + "]"@) == Some(
            LineV::Header(name),
        ),
{
    reveal_strlit("[languages.");
    reveal_strlit("languages");
    reveal_strlit("]");
    let line = "[languages."@ + spec_print_key(name) + "]"@;
    assert(line[0] == '[');
    assert(!spec_is_space('[') && '[' != '#') by {
        assert(('[') as u32 == 91 && ('#') as u32 == 35);
    }
    assert(spec_skip_spaces(line, 0) == 0);
    let w = "languages"@;
    assert(forall|i: int| 0 <= i < w.len() ==> spec_is_bare(#[trigger] w[i]));
    let after = seq!['.'] + spec_print_key(name) + "]"@;
    assert(line =~= seq!['['] + w + after);
    assert(after[0] == '.');
    assert(!spec_is_bare('.')) by {
        assert(('.') as u32 == 46);
    }
    lemma_scan_bare_run(line, seq!['['], w, after, Seq::empty());
    assert(Seq::<char>::empty() + w =~= w);
    assert(line[10] == '.');
    let pre = "[languages."@;
    assert(pre.len() == 11);
    assert(line =~= pre + spec_print_key(name) + "]"@);
    assert("]"@[0] == ']');
    assert(!spec_is_bare(']') && ']' != '"' && ']' != '\'') by {
        assert((']') as u32 == 93 && ('"') as u32 == 34 && ('\'') as u32 == 39);
    }
    lemma_scan_printed_key(line, pre, name, "]"@);
    let e = 11 + spec_print_key(name).len() as int;
    assert(line[e] == ']');
    assert(e + 1 == line.len());
    assert(spec_at_end(line, e + 1));
}

/// An empty line parses as blank.
pub proof fn lemma_parse_line_blank()
    ensures
        spec_parse_line(Seq::<char>::empty()) == Some(LineV::Blank),
{
}

/// The printed optional per-language fields, in canonical order.
pub open spec fn spec_print_opts(lc: LangCfgV) -> Seq<char> {
    (match lc.code_before {
        Some(v) => "code_before = "@ + spec_quote(v) + "\n"@,
        None => Seq::<char>::empty(),
    }) + (match lc.code_after {
        Some(v) => "code_after = "@ + spec_quote(v) + "\n"@,
        None => Seq::<char>::empty(),
    }) + (match lc.timeout {
        Some(t) => "timeout = "@ + crate::text::spec_dec(t as int) + "\n"@,
        None => Seq::<char>::empty(),
    })
}

/// The printed backend fields of one language.
pub open spec fn spec_print_backend(b: crate::BackendV) -> Seq<char> {
    match b {
        crate::BackendV::Exec(b) => "cmdline = "@ + spec_print_list(b.cmdline) + "\n"@
            + (match b.timeout_prefix {
            Some(p) => "timeout_prefix = "@ + spec_quote(p) + "\n"@,
            None => Seq::<char>::empty(),
        }),
        crate::BackendV::UnixSocket(b) => "socket_addr = "@ + spec_quote(b.socket_addr) + "\n"@
            + (match b.timeout_cmdline {
            Some(v) => "timeout_cmdline = "@ + spec_print_list(v) + "\n"@,
            None => Seq::<char>::empty(),
        }),
        crate::BackendV::Network(b) => "network_addr = "@ + spec_quote(b.network_addr) + "\n"@
            + (match b.timeout_cmdline {
            Some(v) => "timeout_cmdline = "@ + spec_print_list(v) + "\n"@,
            None => Seq::<char>::empty(),
        }),
    }
}

/// The printed lines of one language section, blank separator included.
pub open spec fn spec_print_lang(name: Seq<char>, lc: LangCfgV) -> Seq<char> {
    "\n[languages."@ + spec_print_key(name) + "]\n"@ + spec_print_opts(lc) + spec_print_backend(
        lc.backend,
    )
}

/// The printed sections of the languages from `i` on.
pub open spec fn spec_print_langs(ls: Seq<(Seq<char>, LangCfgV)>, i: int) -> Seq<char>
    decreases ls.len() - i,
{
    if !(0 <= i < ls.len()) {
        Seq::empty()
    } else {
        spec_print_lang(ls[i].0, ls[i].1) + spec_print_langs(ls, i + 1)
    }
}

/// The printed form of a whole configuration.
pub open spec fn spec_print_config(c: CfgV) -> Seq<char> {
    "timeout = "@ + crate::text::spec_dec(c.timeout as int) + "\n"@ + spec_print_langs(
        c.languages,
        0,
    )
}

fn push_opts(out: &mut String, lc: &LangCfg)
    ensures
        final(out)@ == old(out)@ + spec_print_opts(lc@),
{
    if let Some(v) = &lc.code_before {
        out.append("code_before = ");
        push_quoted(out, v.as_str());
        out.append("\n");
    }
    if let Some(v) = &lc.code_after {
        out.append("code_after = ");
        push_quoted(out, v.as_str());
        out.append("\n");
    }
    if let Some(t) = lc.timeout {
        out.append("timeout = ");
        let num = crate::text::format_u32(t);
        out.append(num.as_str());
        out.append("\n");
    }
    proof {
        assert(out@ =~= old(out)@ + spec_print_opts(lc@));
    }
}

fn push_backend(out: &mut String, backend: &crate::Backend)
    ensures
        final(out)@ == old(out)@ + spec_print_backend(backend@),
{
    match backend {
        crate::Backend::Exec(b) => {
            out.append("cmdline = ");
            push_list(out, &b.cmdline);
            out.append("\n");
            if let Some(p) = &b.timeout_prefix {
                out.append("timeout_prefix = ");
                push_quoted(out, p.as_str());
                out.append("\n");
            }
            proof {
                assert(out@ =~= old(out)@ + spec_print_backend(backend@));
            }
        },
        crate::Backend::UnixSocket(b) => {
            out.append("socket_addr = ");
            push_quoted(out, b.socket_addr.as_str());
            out.append("\n");
            if let Some(v) = &b.timeout_cmdline {
                out.append("timeout_cmdline = ");
                push_list(out, v);
                out.append("\n");
            }
            proof {
                assert(out@ =~= old(out)@ + spec_print_backend(backend@));
            }
        },
        crate::Backend::Network(b) => {
            out.append("network_addr = ");
            push_quoted(out, b.network_addr.as_str());
            out.append("\n");
            if let Some(v) = &b.timeout_cmdline {
                out.append("timeout_cmdline = ");
                push_list(out, v);
                out.append("\n");
            }
            proof {
                assert(out@ =~= old(out)@ + spec_print_backend(backend@));
            }
        },
    }
}

fn push_lang(out: &mut String, name: &String, lc: &LangCfg)
    ensures
        final(out)@ == old(out)@ + spec_print_lang(name@, lc@),
{
    out.append("\n[languages.");
    push_key(out, name.as_str());
    out.append("]\n");
    push_opts(out, lc);
    push_backend(out, &lc.backend);
    proof {
        assert(out@ =~= old(out)@ + spec_print_lang(name@, lc@));
    }
}

/// Prints a configuration in the text format that `parse_config` reads.
pub fn print_config(cfg: &EvalServiceCfg) -> (r: String)
    ensures
        r@ == spec_print_config(cfg@),
{
    let ghost lsv = cfg@.languages;
    let mut out = String::new();
    out.append("timeout = ");
    let num = crate::text::format_u32(cfg.timeout);
    out.append(num.as_str());
    out.append("\n");
    let mut i: usize = 0;
    proof {
        assert(out@ + spec_print_langs(lsv, 0) =~= spec_print_config(cfg@));
    }
    while i < cfg.languages.len()
        invariant
            0 <= i <= cfg.languages@.len(),
            lsv == cfg@.languages,
            lsv.len() == cfg.languages@.len(),
            out@ + spec_print_langs(lsv, i as int) == spec_print_config(cfg@),
        decreases cfg.languages@.len() - i,
    {
        proof {
            assert(lsv[i as int] == (cfg.languages@[i as int].0@, cfg.languages@[i as int].1@));
        }
        push_lang(&mut out, &cfg.languages[i].0, &cfg.languages[i].1);
        proof {
            assert(out@ + spec_print_langs(lsv, i + 1) =~= spec_print_config(cfg@));
        }
        i += 1;
    }
    out
}

} // verus!
