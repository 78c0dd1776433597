//! Lexical rules of the declaration language, as functions from a position
//! in a character sequence to what they match and where the match ends.
use vstd::prelude::*;
use crate::text::string_of;

verus! {

pub open spec fn is_space(c: char) -> bool {
    c == ' ' || c == '\t'
}

pub open spec fn is_break_char(c: char) -> bool {
    c == '\r' || c == '\n' || c == ' ' || c == '\t'
}

pub open spec fn is_letter(c: char) -> bool {
    ('a' <= c && c <= 'z') || ('A' <= c && c <= 'Z')
}

pub open spec fn is_digit(c: char) -> bool {
    '0' <= c && c <= '9'
}

pub open spec fn is_ident_start(c: char) -> bool {
    is_letter(c) || c == '_'
}

pub open spec fn is_ident_char(c: char) -> bool {
    is_letter(c) || is_digit(c) || c == '_' || c == '!' || c == '.' || c == '+'
}

pub open spec fn is_hex_digit(c: char) -> bool {
    is_digit(c) || ('a' <= c && c <= 'f') || ('A' <= c && c <= 'F')
}

/// `s` holds the text `t` at `pos`.
pub open spec fn has_at(s: Seq<char>, pos: int, t: Seq<char>) -> bool {
    0 <= pos && pos + t.len() <= s.len() && s.subrange(pos, pos + t.len()) == t
}

/// Every character of `s[a..b]` satisfies `p`.
pub open spec fn all_in(s: Seq<char>, a: int, b: int, p: spec_fn(char) -> bool) -> bool {
    forall|i: int| a <= i < b ==> #[trigger] p(s[i])
}

/// The end of the longest run from `pos` of characters satisfying `p`.
pub open spec fn run_end(s: Seq<char>, pos: int, end: int, p: spec_fn(char) -> bool) -> bool {
    pos <= end <= s.len() && all_in(s, pos, end, p) && (end == s.len() || !p(s[end]))
}

pub open spec fn ident_run_end(s: Seq<char>, pos: int, end: int) -> bool {
    run_end(s, pos, end, |c: char| is_ident_char(c))
}

pub open spec fn end_struct_word() -> Seq<char> {
    seq!['E', 'N', 'D', 'S', 'T', 'R', 'U', 'C', 'T']
}

pub open spec fn end_enum_word() -> Seq<char> {
    seq!['E', 'N', 'D', 'E', 'N', 'U', 'M']
}

pub fn ident_char(d: char) -> (r: bool)
    ensures
        r == is_ident_char(d),
{
    ('a' <= d && d <= 'z') || ('A' <= d && d <= 'Z') || ('0' <= d && d <= '9') || d == '_' || d == '!'
        || d == '.' || d == '+'
}

pub fn digit(d: char) -> (r: bool)
    ensures
        r == is_digit(d),
{
    '0' <= d && d <= '9'
}

pub fn lit(s: &Vec<char>, pos: usize, t: &[char]) -> (r: bool)
    ensures
        r == has_at(s@, pos as int, t@),
{
    if pos > s.len() || t.len() > s.len() - pos {
        return false;
    }
    let n = s.len();
    let mut i: usize = 0;
    while i < t.len()
        invariant
            n == s@.len(),
            pos + t@.len() <= n,
            0 <= i <= t@.len(),
            forall|j: int| 0 <= j < i ==> s@[pos + j] == t@[j],
        decreases t@.len() - i,
    {
        if s[pos + i] != t[i] {
            proof {
                assert(s@.subrange(pos as int, pos + t@.len())[i as int] != t@[i as int]);
            }
            return false;
        }
        i = i + 1;
    }
    proof {
        assert(s@.subrange(pos as int, pos + t@.len()) =~= t@);
    }
    true
}

/// Skips spaces and tabs (never line breaks).
pub fn skip_spaces(s: &Vec<char>, pos: usize) -> (end: usize)
    requires
        pos <= s@.len(),
    ensures
        run_end(s@, pos as int, end as int, |c: char| is_space(c)),
        end == spaces_end(s@, pos as int),
{
    let mut i = pos;
    while i < s.len() && (s[i] == ' ' || s[i] == '\t')
        invariant
            pos <= i <= s@.len(),
            all_in(s@, pos as int, i as int, |c: char| is_space(c)),
        decreases s@.len() - i,
    {
        i = i + 1;
    }
    proof {
        lemma_run_is(s@, pos as int, i as int, |c: char| is_space(c));
    }
    i
}

/// One or more line-break characters (CR, LF, space or tab).
pub fn line_breaks(s: &Vec<char>, pos: usize) -> (r: Option<usize>)
    requires
        pos <= s@.len(),
    ensures
        match r {
            Some(end) => end > pos && run_end(s@, pos as int, end as int, |c: char| is_break_char(c)),
            None => pos == s@.len() || !is_break_char(s@[pos as int]),
        },
        match r {
            Some(end) => end == breaks_end(s@, pos as int) && end > pos,
            None => breaks_end(s@, pos as int) <= pos,
        },
{
    let mut i = pos;
    while i < s.len() && (s[i] == '\r' || s[i] == '\n' || s[i] == ' ' || s[i] == '\t')
        invariant
            pos <= i <= s@.len(),
            all_in(s@, pos as int, i as int, |c: char| is_break_char(c)),
        decreases s@.len() - i,
    {
        i = i + 1;
    }
    proof {
        lemma_run_is(s@, pos as int, i as int, |c: char| is_break_char(c));
    }
    if i == pos {
        None
    } else {
        Some(i)
    }
}

/// Exactly one line end: an optional CR, then LF.
pub fn one_line_end(s: &Vec<char>, pos: usize) -> (r: Option<usize>)
    requires
        pos <= s@.len(),
    ensures
        match r {
            Some(end) => end <= s@.len() && ((end == pos + 1 && s@[pos as int] == '\n') || (end == pos + 2
                && s@[pos as int] == '\r' && s@[pos + 1] == '\n')),
            None => !(pos < s@.len() && s@[pos as int] == '\n') && !(pos + 1 < s@.len() && s@[pos as int] == '\r' && s@[pos + 1] == '\n'),
        },
{
    if pos < s.len() && s[pos] == '\n' {
        Some(pos + 1)
    } else if s.len() > 1 && pos < s.len() - 1 && s[pos] == '\r' && s[pos + 1] == '\n' {
        Some(pos + 2)
    } else {
        None
    }
}

/// An identifier: a letter or underscore, then letters, digits, `_`, `!`,
/// `.` or `+`; never exactly `ENDSTRUCT` or `ENDENUM`.
pub fn identifier(s: &Vec<char>, pos: usize) -> (r: Option<(String, usize)>)
    requires
        pos <= s@.len(),
    ensures
        match r {
            Some((id, end)) => pos < end && is_ident_start(s@[pos as int])
                && run_end(s@, pos + 1, end as int, |c: char| is_ident_char(c))
                && id@ == s@.subrange(pos as int, end as int)
                && id@ != end_struct_word() && id@ != end_enum_word(),
            None => !(pos < s@.len() && is_ident_start(s@[pos as int])) || exists|e: int|
                #[trigger] ident_run_end(s@, pos + 1, e) && (s@.subrange(pos as int, e)
                    == end_struct_word() || s@.subrange(pos as int, e) == end_enum_word()),
        },
        match r {
            Some((id, end)) => ident_spec(s@, pos as int) == Some(end as int),
            None => ident_spec(s@, pos as int) is None,
        },
{
    if pos >= s.len() {
        return None;
    }
    let c = s[pos];
    if !(('a' <= c && c <= 'z') || ('A' <= c && c <= 'Z') || c == '_') {
        return None;
    }
    let mut i = pos + 1;
    while i < s.len() && ident_char(s[i])
        invariant
            pos < i <= s@.len(),
            all_in(s@, pos + 1, i as int, |c: char| is_ident_char(c)),
        decreases s@.len() - i,
    {
        i = i + 1;
    }
    let text = string_of(&s.as_slice()[pos..i]);
    proof {
        assert(text@ =~= s@.subrange(pos as int, i as int));
    }
    proof {
        assert(ident_run_end(s@, pos + 1, i as int));
        lemma_run_is(s@, pos + 1, i as int, |c: char| is_ident_char(c));
    }
    if (i - pos == 9 && lit(s, pos, &['E', 'N', 'D', 'S', 'T', 'R', 'U', 'C', 'T']))
        || (i - pos == 7 && lit(s, pos, &['E', 'N', 'D', 'E', 'N', 'U', 'M'])) {
        return None;
    }
    Some((text, i))
}

pub proof fn lemma_run_end_unique(s: Seq<char>, pos: int, a: int, b: int, p: spec_fn(char) -> bool)
    requires
        run_end(s, pos, a, p),
        run_end(s, pos, b, p),
    ensures
        a == b,
{
    if a < b {
        assert(p(s[a]));
    } else if b < a {
        assert(p(s[b]));
    }
}

pub open spec fn is_line_end_char(c: char) -> bool {
    c == '\r' || c == '\n'
}

/// A comment: `//`, an optional third `/`, then the rest of the line.
/// The text is what follows the slashes.
pub fn comment(s: &Vec<char>, pos: usize) -> (r: Option<(String, usize)>)
    requires
        pos <= s@.len(),
    ensures
        match r {
            Some((text, end)) => has_at(s@, pos as int, seq!['/', '/']) && ({
                let start = if pos + 2 < s@.len() && s@[pos + 2] == '/' { pos + 3 } else { pos + 2 };
                run_end(s@, start, end as int, |c: char| !is_line_end_char(c))
                    && text@ == s@.subrange(start, end as int)
            }),
            None => !has_at(s@, pos as int, seq!['/', '/']),
        },
        match r {
            Some((text, end)) => comment_spec(s@, pos as int) matches Some((a, e)) && e == end && text@ == s@.subrange(a, e),
            None => comment_spec(s@, pos as int) is None,
        },
{
    let n = s.len();
    if !lit(s, pos, &['/', '/']) {
        return None;
    }
    assert(pos + 2 <= n);
    let mut start = pos + 2;
    if start < s.len() && s[start] == '/' {
        start = start + 1;
    }
    let mut i = start;
    while i < s.len() && s[i] != '\r' && s[i] != '\n'
        invariant
            start <= i <= s@.len(),
            all_in(s@, start as int, i as int, |c: char| !is_line_end_char(c)),
        decreases s@.len() - i,
    {
        i = i + 1;
    }
    let text = string_of(&s.as_slice()[start..i]);
    proof {
        assert(text@ =~= s@.subrange(start as int, i as int));
        lemma_run_is(s@, start as int, i as int, |c: char| !is_line_end_char(c));
    }
    Some((text, i))
}

/// A string literal: text without double quotes, between double quotes.
pub fn string_literal(s: &Vec<char>, pos: usize) -> (r: Option<(String, usize)>)
    requires
        pos <= s@.len(),
    ensures
        match r {
            Some((text, end)) => pos + 2 <= end <= s@.len() && s@[pos as int] == '"' && s@[end - 1] == '"'
                && text@ == s@.subrange(pos + 1, end - 1) && all_in(s@, pos + 1, end - 1, |c: char| c != '"'),
            None => !(pos < s@.len() && s@[pos as int] == '"') || all_in(s@, pos + 1, s@.len() as int, |c: char| c != '"'),
        },
        match r {
            Some((text, end)) => string_spec(s@, pos as int) == Some(end as int),
            None => string_spec(s@, pos as int) is None,
        },
{
    if pos >= s.len() || s[pos] != '"' {
        return None;
    }
    let mut i = pos + 1;
    while i < s.len() && s[i] != '"'
        invariant
            pos + 1 <= i <= s@.len(),
            all_in(s@, pos + 1, i as int, |c: char| c != '"'),
        decreases s@.len() - i,
    {
        i = i + 1;
    }
    proof {
        lemma_run_is(s@, pos + 1, i as int, |c: char| c != '"');
    }
    if i >= s.len() {
        return None;
    }
    let text = string_of(&s.as_slice()[pos + 1..i]);
    proof {
        assert(text@ =~= s@.subrange(pos + 1, i as int));
    }
    Some((text, i + 1))
}

pub open spec fn hex_val(c: char) -> nat {
    if is_digit(c) {
        (c as nat - '0' as nat) as nat
    } else if 'a' <= c && c <= 'f' {
        (c as nat - 'a' as nat + 10) as nat
    } else {
        (c as nat - 'A' as nat + 10) as nat
    }
}

/// The value of a run of hexadecimal digits.
pub open spec fn hex_value(d: Seq<char>) -> nat
    decreases d.len(),
{
    if d.len() == 0 {
        0
    } else {
        hex_value(d.drop_last()) * 16 + hex_val(d.last())
    }
}

/// A native hash: `"0x` and hexadecimal digits, then `"`, whose value fits
/// in 64 bits.
pub fn native_hash(s: &Vec<char>, pos: usize) -> (r: Option<(u64, usize)>)
    requires
        pos <= s@.len(),
    ensures
        match r {
            Some((h, end)) => has_at(s@, pos as int, seq!['"', '0', 'x']) && pos + 4 < end <= s@.len()
                && s@[end - 1] == '"' && all_in(s@, pos + 3, end - 1, |c: char| is_hex_digit(c))
                && h as nat == hex_value(s@.subrange(pos + 3, end - 1)),
            None => true,
        },
        match r {
            Some((h, end)) => hash_spec(s@, pos as int) == Some((h as nat, end as int)),
            None => hash_spec(s@, pos as int) is None,
        },
{
    let n = s.len();
    if !lit(s, pos, &['"', '0', 'x']) {
        return None;
    }
    assert(pos + 3 <= n);
    let start = pos + 3;
    let mut i = start;
    let mut v: u64 = 0;
    while i < s.len() && (digit(s[i]) || ('a' <= s[i] && s[i] <= 'f') || ('A' <= s[i] && s[i] <= 'F'))
        invariant
            start <= i <= s@.len(),
            start == pos + 3,
            has_at(s@, pos as int, seq!['"', '0', 'x']),
            all_in(s@, start as int, i as int, |c: char| is_hex_digit(c)),
            v as nat == hex_value(s@.subrange(start as int, i as int)),
        decreases s@.len() - i,
    {
        let c = s[i];
        let d: u64 = if digit(c) {
            (c as u64) - 48
        } else if 'a' <= c && c <= 'f' {
            (c as u64) - 87
        } else {
            (c as u64) - 55
        };
        assert(d as nat == hex_val(c));
        if v > (u64::MAX - d) / 16 {
            proof {
                assert(v * 16 + d > u64::MAX) by (nonlinear_arith)
                    requires v > (u64::MAX - d) / 16, d <= 15;
                assert(s@.subrange(start as int, i + 1).drop_last() =~= s@.subrange(start as int, i as int));
                assert(hex_value(s@.subrange(start as int, i + 1)) > u64::MAX);
                let e = run_to(s@, start as int, |c: char| is_hex_digit(c));
                lemma_run_to(s@, start as int, |c: char| is_hex_digit(c));
                let ph = |c: char| is_hex_digit(c);
                assert(ph(s@[i as int]));
                if e <= i {
                    assert(ph(s@[e]));
                }
                assert(e > i);
                lemma_hex_mono(s@, start as int, i + 1, e);
                assert(hex_value(s@.subrange(pos + 3, e)) > u64::MAX);
                assert(has_at(s@, pos as int, seq!['"', '0', 'x']));
            }
            return None;
        }
        proof {
            assert(v * 16 + d <= u64::MAX) by (nonlinear_arith)
                requires v <= (u64::MAX - d) / 16, d <= 15;
            assert(s@.subrange(start as int, i + 1).drop_last() =~= s@.subrange(start as int, i as int));
        }
        v = v * 16 + d;
        i = i + 1;
    }
    proof {
        lemma_run_is(s@, start as int, i as int, |c: char| is_hex_digit(c));
    }
    if i == start || i >= s.len() || s[i] != '"' {
        return None;
    }
    Some((v, i + 1))
}

proof fn lemma_hex_mono(s: Seq<char>, a: int, j: int, e: int)
    requires
        0 <= a <= j <= e <= s.len(),
    ensures
        hex_value(s.subrange(a, j)) <= hex_value(s.subrange(a, e)),
    decreases e - j,
{
    if j < e {
        lemma_hex_mono(s, a, j, e - 1);
        assert(s.subrange(a, e).drop_last() =~= s.subrange(a, e - 1));
    }
}

pub open spec fn strip_leading_zeros(d: Seq<char>) -> Seq<char>
    decreases d.len(),
{
    if d.len() > 1 && d[0] == '0' {
        strip_leading_zeros(d.drop_first())
    } else {
        d
    }
}

pub open spec fn strip_trailing_zeros(d: Seq<char>) -> Seq<char>
    decreases d.len(),
{
    if d.len() > 0 && d.last() == '0' {
        strip_trailing_zeros(d.drop_last())
    } else {
        d
    }
}

/// The canonical text of a decimal number with sign `neg`, integer digits
/// `int_digits` and fraction digits `frac`: no leading zeros in the integer
/// part; when there is a fraction, `.` and its digits without trailing
/// zeros, or `0` when all were zeros.
pub open spec fn canonical_decimal(neg: bool, int_digits: Seq<char>, frac: Seq<char>) -> Seq<char> {
    let f = strip_trailing_zeros(frac);
    (if neg { seq!['-'] } else { Seq::empty() }) + strip_leading_zeros(int_digits) + (if frac.len() > 0 {
        seq!['.'] + (if f.len() > 0 { f } else { seq!['0'] })
    } else {
        Seq::empty()
    })
}

pub open spec fn digits_end(s: Seq<char>, pos: int, end: int) -> bool {
    run_end(s, pos, end, |c: char| is_digit(c))
}

fn digit_run_end(s: &Vec<char>, pos: usize) -> (end: usize)
    requires
        pos <= s@.len(),
    ensures
        run_end(s@, pos as int, end as int, |c: char| is_digit(c)),
        end == run_to(s@, pos as int, |c: char| is_digit(c)),
{
    let mut i = pos;
    while i < s.len() && digit(s[i])
        invariant
            pos <= i <= s@.len(),
            all_in(s@, pos as int, i as int, |c: char| is_digit(c)),
        decreases s@.len() - i,
    {
        i = i + 1;
    }
    proof {
        lemma_run_is(s@, pos as int, i as int, |c: char| is_digit(c));
    }
    i
}

/// A number: an optional `-`, digits, and optionally `.` and more digits.
/// The result is its canonical decimal text.
pub fn number(s: &Vec<char>, pos: usize) -> (r: Option<(String, usize)>)
    requires
        pos <= s@.len(),
    ensures
        match r {
            Some((text, end)) => pos < end <= s@.len() && exists|a: int, b: int|
                pos <= a < b <= end && a == (if s@[pos as int] == '-' { pos + 1 } else { pos as int })
                && #[trigger] digits_end(s@, a, b)
                && (b == end || (s@[b] == '.' && b + 1 < end && run_end(s@, b + 1, end as int, |c: char| is_digit(c))))
                && text@ == canonical_decimal(s@[pos as int] == '-', s@.subrange(a, b),
                    if b == end { Seq::empty() } else { s@.subrange(b + 1, end as int) })
                && (b == end ==> !(b + 1 < s@.len() && s@[b] == '.' && is_digit(s@[b + 1]))),
            None => !(pos < s@.len() && is_digit(s@[pos as int])) && !(pos + 1 < s@.len() && s@[pos as int] == '-'
                && is_digit(s@[pos + 1])),
        },
        match r {
            Some((text, end)) => number_spec(s@, pos as int) == Some((text@, end as int)),
            None => number_spec(s@, pos as int) is None,
        },
{
    if pos >= s.len() {
        return None;
    }
    let neg = s[pos] == '-';
    let a = if neg { pos + 1 } else { pos };
    let b = digit_run_end(s, a);
    if b == a {
        return None;
    }
    let mut end = b;
    if b < s.len() && s[b] == '.' {
        let e = digit_run_end(s, b + 1);
        if e > b + 1 {
            end = e;
        }
    }
    // integer part without leading zeros
    let mut i = a;
    while i + 1 < b && s[i] == '0'
        invariant
            a <= i < b <= s@.len(),
            strip_leading_zeros(s@.subrange(a as int, b as int)) == strip_leading_zeros(s@.subrange(i as int, b as int)),
        decreases b - i,
    {
        proof {
            assert(s@.subrange(i as int, b as int).drop_first() =~= s@.subrange(i + 1, b as int));
        }
        i = i + 1;
    }
    proof {
        let t = s@.subrange(i as int, b as int);
        assert(!(t.len() > 1 && t[0] == '0'));
    }
    // fraction without trailing zeros
    let fs = if end == b { b } else { b + 1 };
    let mut j = end;
    proof {
        if end == b {
            assert(s@.subrange(fs as int, j as int) =~= Seq::<char>::empty());
        }
    }
    while j > fs && s[j - 1] == '0'
        invariant
            b <= fs <= j <= end <= s@.len(),
            strip_trailing_zeros(s@.subrange(fs as int, end as int)) == strip_trailing_zeros(s@.subrange(fs as int, j as int)),
        decreases j - fs,
    {
        proof {
            assert(s@.subrange(fs as int, j as int).drop_last() =~= s@.subrange(fs as int, j - 1));
        }
        j = j - 1;
    }
    let mut out: Vec<char> = Vec::new();
    if neg {
        out.push('-');
    }
    crate::text::push_all(&mut out, &s.as_slice()[i..b]);
    if end > b {
        out.push('.');
        if j > fs {
            crate::text::push_all(&mut out, &s.as_slice()[fs..j]);
        } else {
            out.push('0');
        }
    }
    proof {
        let frac = if b == end { Seq::<char>::empty() } else { s@.subrange(b + 1, end as int) };
        assert(frac =~= s@.subrange(fs as int, end as int));
        assert(out@ =~= canonical_decimal(neg, s@.subrange(a as int, b as int), frac));
        assert(digits_end(s@, a as int, b as int));
    }
    Some((string_of(out.as_slice()), end))
}

pub open spec fn upper(c: char) -> char {
    if 'a' <= c && c <= 'z' {
        ((c as u8) - 32) as char
    } else {
        c
    }
}

/// `s` holds `t` at `pos`, ignoring the case of ASCII letters in `s`
/// (`t` is upper case).
pub open spec fn has_at_ci(s: Seq<char>, pos: int, t: Seq<char>) -> bool {
    0 <= pos && pos + t.len() <= s.len() && forall|j: int| 0 <= j < t.len() ==> #[trigger] upper(s[pos + j]) == t[j]
}

pub fn lit_ci(s: &Vec<char>, pos: usize, t: &[char]) -> (r: bool)
    ensures
        r == has_at_ci(s@, pos as int, t@),
{
    if pos > s.len() || t.len() > s.len() - pos {
        return false;
    }
    let n = s.len();
    let mut i: usize = 0;
    while i < t.len()
        invariant
            n == s@.len(),
            pos + t@.len() <= n,
            0 <= i <= t@.len(),
            forall|j: int| 0 <= j < i ==> #[trigger] upper(s@[pos + j]) == t@[j],
        decreases t@.len() - i,
    {
        let c = s[pos + i];
        let u = if 'a' <= c && c <= 'z' { ((c as u8) - 32) as char } else { c };
        if u != t[i] {
            proof {
                assert(upper(s@[pos + i]) != t@[i as int]);
            }
            return false;
        }
        i = i + 1;
    }
    true
}

/// A boolean: `TRUE` or `FALSE` in any case.
pub fn boolean(s: &Vec<char>, pos: usize) -> (r: Option<(bool, usize)>)
    ensures
        match r {
            Some((b, end)) => if b {
                end == pos + 4 && has_at_ci(s@, pos as int, seq!['T', 'R', 'U', 'E'])
            } else {
                end == pos + 5 && has_at_ci(s@, pos as int, seq!['F', 'A', 'L', 'S', 'E'])
            },
            None => !has_at_ci(s@, pos as int, seq!['T', 'R', 'U', 'E'])
                && !has_at_ci(s@, pos as int, seq!['F', 'A', 'L', 'S', 'E']),
        },
        match r {
            Some((b, end)) => bool_spec(s@, pos as int) == Some((b, end as int)),
            None => bool_spec(s@, pos as int) is None,
        },
{
    let t = ['T', 'R', 'U', 'E'];
    let f = ['F', 'A', 'L', 'S', 'E'];
    proof {
        assert(t@ =~= seq!['T', 'R', 'U', 'E']);
        assert(f@ =~= seq!['F', 'A', 'L', 'S', 'E']);
    }
    let n = s.len();
    if lit_ci(s, pos, &t) {
        assert(pos + 4 <= n);
        Some((true, pos + 4))
    } else if lit_ci(s, pos, &f) {
        assert(pos + 5 <= n);
        Some((false, pos + 5))
    } else {
        None
    }
}

/// The end of the run from `pos` of characters satisfying `p`.
pub open spec fn run_to(s: Seq<char>, pos: int, p: spec_fn(char) -> bool) -> int
    decreases s.len() - pos,
{
    if 0 <= pos < s.len() && p(s[pos]) {
        run_to(s, pos + 1, p)
    } else {
        pos
    }
}

pub proof fn lemma_run_to(s: Seq<char>, pos: int, p: spec_fn(char) -> bool)
    requires
        0 <= pos <= s.len(),
    ensures
        run_end(s, pos, run_to(s, pos, p), p),
    decreases s.len() - pos,
{
    if pos < s.len() && p(s[pos]) {
        lemma_run_to(s, pos + 1, p);
    }
}

/// `end` is where the run from `pos` ends.
pub proof fn lemma_run_is(s: Seq<char>, pos: int, end: int, p: spec_fn(char) -> bool)
    requires
        0 <= pos <= s.len(),
        run_end(s, pos, end, p),
    ensures
        end == run_to(s, pos, p),
{
    lemma_run_to(s, pos, p);
    lemma_run_end_unique(s, pos, end, run_to(s, pos, p), p);
}

pub open spec fn spaces_end(s: Seq<char>, pos: int) -> int {
    run_to(s, pos, |c: char| is_space(c))
}

pub open spec fn breaks_end(s: Seq<char>, pos: int) -> int {
    run_to(s, pos, |c: char| is_break_char(c))
}

/// Where an identifier at `pos` ends, if one stands there.
pub open spec fn ident_spec(s: Seq<char>, pos: int) -> Option<int> {
    if 0 <= pos < s.len() && is_ident_start(s[pos]) {
        let e = run_to(s, pos + 1, |c: char| is_ident_char(c));
        if s.subrange(pos, e) == end_struct_word() || s.subrange(pos, e) == end_enum_word() {
            None
        } else {
            Some(e)
        }
    } else {
        None
    }
}

/// Where the text of a comment at `pos` starts and where it ends.
pub open spec fn comment_spec(s: Seq<char>, pos: int) -> Option<(int, int)> {
    if has_at(s, pos, seq!['/', '/']) {
        let start = if pos + 2 < s.len() && s[pos + 2] == '/' { pos + 3 } else { pos + 2 };
        Some((start, run_to(s, start, |c: char| !is_line_end_char(c))))
    } else {
        None
    }
}

/// Where a string literal at `pos` ends (after its closing quote).
pub open spec fn string_spec(s: Seq<char>, pos: int) -> Option<int> {
    if 0 <= pos < s.len() && s[pos] == '"' {
        let e = run_to(s, pos + 1, |c: char| c != '"');
        if e < s.len() {
            Some(e + 1)
        } else {
            None
        }
    } else {
        None
    }
}

/// The value and end of a native hash at `pos`: `"0x`, hexadecimal digits,
/// `"`, and a value below 2^64.
pub open spec fn hash_spec(s: Seq<char>, pos: int) -> Option<(nat, int)> {
    if has_at(s, pos, seq!['"', '0', 'x']) {
        let e = run_to(s, pos + 3, |c: char| is_hex_digit(c));
        let v = hex_value(s.subrange(pos + 3, e));
        if e > pos + 3 && e < s.len() && s[e] == '"' && v <= u64::MAX {
            Some((v, e + 1))
        } else {
            None
        }
    } else {
        None
    }
}

/// The canonical text and end of a number at `pos`.
pub open spec fn number_spec(s: Seq<char>, pos: int) -> Option<(Seq<char>, int)> {
    if 0 <= pos < s.len() {
        let neg = s[pos] == '-';
        let a = if neg { pos + 1 } else { pos };
        let b = run_to(s, a, |c: char| is_digit(c));
        if b == a {
            None
        } else {
            let f = run_to(s, b + 1, |c: char| is_digit(c));
            let end = if b + 1 < s.len() && s[b] == '.' && f > b + 1 { f } else { b };
            Some((canonical_decimal(neg, s.subrange(a, b), if end == b { Seq::empty() } else { s.subrange(b + 1, end) }), end))
        }
    } else {
        None
    }
}

/// A boolean at `pos`, in any case.
pub open spec fn bool_spec(s: Seq<char>, pos: int) -> Option<(bool, int)> {
    if has_at_ci(s, pos, seq!['T', 'R', 'U', 'E']) {
        Some((true, pos + 4))
    } else if has_at_ci(s, pos, seq!['F', 'A', 'L', 'S', 'E']) {
        Some((false, pos + 5))
    } else {
        None
    }
}

} // verus!
