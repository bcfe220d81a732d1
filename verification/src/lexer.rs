//! The lexical layer of the HCL parser: whitespace, comments, identifiers, numbers, string
//! literals and heredocs. Positions are character offsets into the input.
use vstd::prelude::*;
use crate::expr::HeredocStripMode;
use crate::number::{Number, NumberV};
use crate::text::string_of;
use crate::util::{
    char_from_u32, hex_digit, hex_value, is_ascii_alpha, is_ascii_digit, is_scalar_value,
};

verus! {

/// Whether `s` holds the characters `t` from position `i` on.
pub open spec fn at(s: Seq<char>, i: int, t: Seq<char>) -> bool {
    0 <= i && i + t.len() <= s.len() && s.subrange(i, i + t.len()) == t
}

/// Whether `c` can start an identifier: an ASCII letter or `_`.
pub open spec fn ident_start(c: char) -> bool {
    is_ascii_alpha(c) || c == '_'
}

/// Whether `c` can continue an identifier: an ASCII letter or digit, `_` or `-`.
pub open spec fn ident_char(c: char) -> bool {
    is_ascii_alpha(c) || is_ascii_digit(c) || c == '_' || c == '-'
}

/// The end of the run of characters satisfying `ident_char` from `i`.
pub open spec fn ident_end(s: Seq<char>, i: int) -> int
    decreases s.len() - i,
{
    if 0 <= i < s.len() && ident_char(s[i]) {
        ident_end(s, i + 1)
    } else {
        i
    }
}

/// An identifier at `i`: its characters and the position after it.
pub open spec fn ident(s: Seq<char>, i: int) -> Option<(Seq<char>, int)> {
    if 0 <= i < s.len() && ident_start(s[i]) {
        let j = ident_end(s, i + 1);
        Some((s.subrange(i, j), j))
    } else {
        None
    }
}

/// The position of the first `*/` at or after `i`, if any.
pub open spec fn comment_end(s: Seq<char>, i: int) -> Option<int>
    decreases s.len() - i,
{
    if i < 0 || i + 1 >= s.len() {
        None
    } else if s[i] == '*' && s[i + 1] == '/' {
        Some(i)
    } else {
        comment_end(s, i + 1)
    }
}

/// The position of the first newline at or after `i`, or the end of the input.
pub open spec fn line_end(s: Seq<char>, i: int) -> int
    decreases s.len() - i,
{
    if i < 0 || i >= s.len() || s[i] == '\n' {
        i
    } else {
        line_end(s, i + 1)
    }
}

/// Skips spaces, tabs and inline comments (`/* ... */`) from `i`.
pub open spec fn sp(s: Seq<char>, i: int) -> int
    decreases s.len() - i,
{
    if i < 0 || i >= s.len() {
        i
    } else if s[i] == ' ' || s[i] == '\t' {
        sp(s, i + 1)
    } else if at(s, i, seq!['/', '*']) && comment_end(s, i + 2) is Some {
        let m = comment_end(s, i + 2).unwrap();
        if i < m + 2 <= s.len() {
            sp(s, m + 2)
        } else {
            i
        }
    } else {
        i
    }
}

/// Skips whitespace including newlines, and comments of all three kinds (`#`, `//`,
/// `/* ... */`), from `i`.
pub open spec fn ws(s: Seq<char>, i: int) -> int
    decreases s.len() - i,
{
    if i < 0 || i >= s.len() {
        i
    } else if s[i] == ' ' || s[i] == '\t' || s[i] == '\n' || s[i] == '\r' {
        ws(s, i + 1)
    } else if s[i] == '#' {
        let e = line_end(s, i + 1);
        if i < e <= s.len() {
            ws(s, e)
        } else {
            i
        }
    } else if at(s, i, seq!['/', '/']) {
        let e = line_end(s, i + 2);
        if i < e <= s.len() {
            ws(s, e)
        } else {
            i
        }
    } else if at(s, i, seq!['/', '*']) && comment_end(s, i + 2) is Some {
        let m = comment_end(s, i + 2).unwrap();
        if i < m + 2 <= s.len() {
            ws(s, m + 2)
        } else {
            i
        }
    } else {
        i
    }
}

pub proof fn lemma_ident_end(s: Seq<char>, i: int)
    requires
        0 <= i <= s.len(),
    ensures
        i <= ident_end(s, i) <= s.len(),
        forall|k: int| i <= k < ident_end(s, i) ==> ident_char(#[trigger] s[k]),
    decreases s.len() - i,
{
    if i < s.len() && ident_char(s[i]) {
        lemma_ident_end(s, i + 1);
    }
}

proof fn lemma_comment_end(s: Seq<char>, i: int)
    requires
        0 <= i,
    ensures
        comment_end(s, i) matches Some(m) ==> i <= m && m + 2 <= s.len() && s[m] == '*' && s[m
            + 1] == '/',
    decreases s.len() - i,
{
    if i + 1 < s.len() && !(s[i] == '*' && s[i + 1] == '/') {
        lemma_comment_end(s, i + 1);
    }
}

proof fn lemma_line_end(s: Seq<char>, i: int)
    requires
        0 <= i <= s.len(),
    ensures
        i <= line_end(s, i) <= s.len(),
    decreases s.len() - i,
{
    if i < s.len() && s[i] != '\n' {
        lemma_line_end(s, i + 1);
    }
}

/// Bounds of the whitespace skippers.
pub proof fn lemma_sp_ws(s: Seq<char>, i: int)
    requires
        0 <= i <= s.len(),
    ensures
        i <= sp(s, i) <= s.len(),
        i <= ws(s, i) <= s.len(),
    decreases s.len() - i,
{
    if i < s.len() {
        if s[i] == ' ' || s[i] == '\t' {
            lemma_sp_ws(s, i + 1);
        }
        if s[i] == ' ' || s[i] == '\t' || s[i] == '\n' || s[i] == '\r' {
            lemma_sp_ws(s, i + 1);
        }
        if s[i] == '#' {
            lemma_line_end(s, i + 1);
            lemma_sp_ws(s, line_end(s, i + 1));
        }
        if i + 2 <= s.len() {
            lemma_line_end(s, i + 2);
            if line_end(s, i + 2) > i {
                lemma_sp_ws(s, line_end(s, i + 2));
            }
            lemma_comment_end(s, i + 2);
            if let Some(m) = comment_end(s, i + 2) {
                lemma_sp_ws(s, m + 2);
            }
        }
    }
}

/// Whether `s` holds `t` at `i` (exec).
pub fn at_exec(s: &Vec<char>, i: usize, t: &[char]) -> (r: bool)
    ensures
        r == at(s@, i as int, t@),
{
    if i > s.len() || t.len() > s.len() - i {
        return false;
    }
    let mut k: usize = 0;
    while k < t.len()
        invariant
            i + t@.len() <= s@.len(),
            s@.len() == s.len(),
            t@.len() == t.len(),
            k <= t@.len(),
            forall|m: int| 0 <= m < k ==> s@[i + m] == t@[m],
        decreases t@.len() - k,
    {
        if s[i + k] != t[k] {
            assert(s@.subrange(i as int, i + t@.len())[k as int] != t@[k as int]);
            return false;
        }
        k += 1;
    }
    assert(s@.subrange(i as int, i + t@.len()) =~= t@);
    true
}

/// Exec form of [`ident_start`].
pub fn ident_start_exec(c: char) -> (r: bool)
    ensures
        r == ident_start(c),
{
    ('a' <= c && c <= 'z') || ('A' <= c && c <= 'Z') || c == '_'
}

/// Exec form of [`ident_char`].
pub fn ident_char_exec(c: char) -> (r: bool)
    ensures
        r == ident_char(c),
{
    ('a' <= c && c <= 'z') || ('A' <= c && c <= 'Z') || ('0' <= c && c <= '9') || c == '_' || c
        == '-'
}

/// Exec form of [`ident`].
pub fn ident_exec(s: &Vec<char>, i: usize) -> (r: Option<(Vec<char>, usize)>)
    requires
        i <= s@.len(),
    ensures
        match ident(s@, i as int) {
            Some((v, j)) => r matches Some((w, k)) && w@ == v && k == j && i < k <= s@.len(),
            None => r is None,
        },
{
    if i < s.len() && ident_start_exec(s[i]) {
        let mut j = i + 1;
        let mut w: Vec<char> = Vec::new();
        w.push(s[i]);
        assert(ident_end(s@, i + 1) == ident_end(s@, j as int));
        while j < s.len() && ident_char_exec(s[j])
            invariant
                i < j <= s@.len(),
                ident_end(s@, i + 1) == ident_end(s@, j as int),
                w@ == s@.subrange(i as int, j as int),
            decreases s@.len() - j,
        {
            w.push(s[j]);
            assert(w@ =~= s@.subrange(i as int, j + 1));
            j += 1;
        }
        Some((w, j))
    } else {
        None
    }
}

fn comment_end_exec(s: &Vec<char>, i: usize) -> (r: Option<usize>)
    ensures
        match r {
            Some(m) => comment_end(s@, i as int) == Some(m as int) && i <= m && m + 2 <= s@.len(),
            None => comment_end(s@, i as int) is None,
        },
{
    proof {
        lemma_comment_end(s@, i as int);
    }
    let mut k = i;
    while s.len() > 1 && k < s.len() - 1
        invariant
            i <= k,
            comment_end(s@, i as int) == comment_end(s@, k as int),
        decreases s@.len() - k,
    {
        if s[k] == '*' && s[k + 1] == '/' {
            return Some(k);
        }
        k += 1;
    }
    None
}

pub fn line_end_exec(s: &Vec<char>, i: usize) -> (r: usize)
    requires
        i <= s@.len(),
    ensures
        r == line_end(s@, i as int),
        i <= r <= s@.len(),
{
    let mut k = i;
    while k < s.len() && s[k] != '\n'
        invariant
            i <= k <= s@.len(),
            line_end(s@, i as int) == line_end(s@, k as int),
        decreases s@.len() - k,
    {
        k += 1;
    }
    k
}

/// Whether the two characters `a`, `b` stand at `i` (exec).
pub fn at2_exec(s: &Vec<char>, i: usize, a: char, b: char) -> (r: bool)
    ensures
        r == at(s@, i as int, seq![a, b]),
        r ==> i + 2 <= s.len(),
{
    if i < s.len() && s.len() - i >= 2 {
        let r = s[i] == a && s[i + 1] == b;
        proof {
            if r {
                assert(s@.subrange(i as int, i + 2) =~= seq![a, b]);
            } else if s[i as int] != a {
                assert(s@.subrange(i as int, i + 2)[0] != seq![a, b][0]);
            } else {
                assert(s@.subrange(i as int, i + 2)[1] != seq![a, b][1]);
            }
        }
        r
    } else {
        false
    }
}

/// Whether the three characters `a`, `b`, `c` stand at `i`.
pub fn at3_exec(s: &Vec<char>, i: usize, a: char, b: char, c: char) -> (r: bool)
    ensures
        r == at(s@, i as int, seq![a, b, c]),
        r ==> i + 3 <= s.len(),
{
    if i < s.len() && s.len() - i >= 3 {
        let r = s[i] == a && s[i + 1] == b && s[i + 2] == c;
        proof {
            let w = s@.subrange(i as int, i + 3);
            if r {
                assert(w =~= seq![a, b, c]);
            } else if s[i as int] != a {
                assert(w[0] != seq![a, b, c][0]);
            } else if s[i + 1] != b {
                assert(w[1] != seq![a, b, c][1]);
            } else {
                assert(w[2] != seq![a, b, c][2]);
            }
        }
        r
    } else {
        false
    }
}

/// Exec form of [`sp`].
pub fn sp_exec(s: &Vec<char>, i: usize) -> (r: usize)
    requires
        i <= s@.len(),
    ensures
        r == sp(s@, i as int),
        i <= r <= s@.len(),
{
    let mut k = i;
    proof {
        lemma_sp_ws(s@, i as int);
    }
    loop
        invariant
            i <= k <= s@.len(),
            sp(s@, i as int) == sp(s@, k as int),
        decreases s@.len() - k,
    {
        if k < s.len() && (s[k] == ' ' || s[k] == '\t') {
            k += 1;
        } else if at2_exec(s, k, '/', '*') {
            match comment_end_exec(s, k + 2) {
                Some(m) => {
                    k = m + 2;
                },
                None => return k,
            }
        } else {
            return k;
        }
    }
}

/// Exec form of [`ws`].
pub fn ws_exec(s: &Vec<char>, i: usize) -> (r: usize)
    requires
        i <= s@.len(),
    ensures
        r == ws(s@, i as int),
        i <= r <= s@.len(),
{
    let mut k = i;
    proof {
        lemma_sp_ws(s@, i as int);
    }
    loop
        invariant
            i <= k <= s@.len(),
            ws(s@, i as int) == ws(s@, k as int),
        decreases s@.len() - k,
    {
        if k < s.len() && (s[k] == ' ' || s[k] == '\t' || s[k] == '\n' || s[k] == '\r') {
            k += 1;
        } else if k < s.len() && s[k] == '#' {
            let e = line_end_exec(s, k + 1);
            k = e;
        } else if at2_exec(s, k, '/', '/') {
            let e = line_end_exec(s, k + 2);
            k = e;
        } else if at2_exec(s, k, '/', '*') {
            match comment_end_exec(s, k + 2) {
                Some(m) => {
                    k = m + 2;
                },
                None => return k,
            }
        } else {
            return k;
        }
    }
}

// ---------------------------------------------------------------------------------------------
// Numbers
// ---------------------------------------------------------------------------------------------

/// The end of the run of ASCII digits from `i`.
pub open spec fn digits_end(s: Seq<char>, i: int) -> int
    decreases s.len() - i,
{
    if 0 <= i < s.len() && is_ascii_digit(s[i]) {
        digits_end(s, i + 1)
    } else {
        i
    }
}

/// The value of a run of decimal digits.
pub open spec fn digits_value(d: Seq<char>) -> nat
    decreases d.len(),
{
    if d.len() == 0 {
        0
    } else {
        digits_value(d.drop_last()) * 10 + (d.last() as nat - '0' as nat) as nat
    }
}

/// Whether `c` starts an exponent.
pub open spec fn is_exp_char(c: char) -> bool {
    c == 'e' || c == 'E'
}

/// The end of an exponent (`e` or `E`, an optional sign, at least one digit) that starts at `k`;
/// `None` where the digits are missing.
pub open spec fn exponent_end(s: Seq<char>, k: int) -> Option<int> {
    let d = if s.len() - k > 1 && (s[k + 1] == '+' || s[k + 1] == '-') {
        k + 2
    } else {
        k + 1
    };
    if d < s.len() && is_ascii_digit(s[d]) {
        Some(digits_end(s, d))
    } else {
        None
    }
}

/// A number literal at `i` (which holds a digit): a float where a fraction or an exponent
/// follows the digits, kept as its text; otherwise an integer, which must fit in a `u64`.
pub open spec fn number(s: Seq<char>, i: int) -> Option<(NumberV, int)> {
    let d = digits_end(s, i);
    if d + 1 < s.len() && s[d] == '.' && is_ascii_digit(s[d + 1]) {
        let f = digits_end(s, d + 1);
        if f < s.len() && is_exp_char(s[f]) {
            match exponent_end(s, f) {
                Some(e) => Some((NumberV::Float(s.subrange(i, e)), e)),
                None => None,
            }
        } else {
            Some((NumberV::Float(s.subrange(i, f)), f))
        }
    } else if d < s.len() && is_exp_char(s[d]) {
        match exponent_end(s, d) {
            Some(e) => Some((NumberV::Float(s.subrange(i, e)), e)),
            None => None,
        }
    } else {
        let v = digits_value(s.subrange(i, d));
        if v <= u64::MAX {
            Some((NumberV::PosInt(v as u64), d))
        } else {
            None
        }
    }
}

pub proof fn lemma_digits_end(s: Seq<char>, i: int)
    requires
        0 <= i <= s.len(),
    ensures
        i <= digits_end(s, i) <= s.len(),
        digits_end(s, i) < s.len() ==> !is_ascii_digit(s[digits_end(s, i)]),
    decreases s.len() - i,
{
    if i < s.len() && is_ascii_digit(s[i]) {
        lemma_digits_end(s, i + 1);
    }
}

/// The end of the run of digits from `i` (exec).
pub fn digits_end_exec(s: &Vec<char>, i: usize) -> (r: usize)
    requires
        i <= s@.len(),
    ensures
        r == digits_end(s@, i as int),
        i <= r <= s@.len(),
{
    let mut k = i;
    while k < s.len() && '0' <= s[k] && s[k] <= '9'
        invariant
            i <= k <= s@.len(),
            digits_end(s@, i as int) == digits_end(s@, k as int),
        decreases s@.len() - k,
    {
        k += 1;
    }
    k
}

/// The characters of `s` from `a` to `b`.
pub fn slice_chars(s: &Vec<char>, a: usize, b: usize) -> (r: Vec<char>)
    requires
        a <= b <= s@.len(),
    ensures
        r@ == s@.subrange(a as int, b as int),
{
    let mut r: Vec<char> = Vec::new();
    let mut k = a;
    while k < b
        invariant
            a <= k <= b <= s@.len(),
            r@ == s@.subrange(a as int, k as int),
        decreases b - k,
    {
        r.push(s[k]);
        assert(s@.subrange(a as int, k + 1) =~= s@.subrange(a as int, k as int).push(s@[k as int]));
        k += 1;
    }
    r
}

fn exponent_end_exec(s: &Vec<char>, k: usize) -> (r: Option<usize>)
    requires
        k < s@.len(),
    ensures
        match exponent_end(s@, k as int) {
            Some(e) => r == Some(e as usize) && k < e <= s@.len(),
            None => r is None,
        },
{
    let d = if s.len() - k > 1 && (s[k + 1] == '+' || s[k + 1] == '-') {
        k + 2
    } else {
        k + 1
    };
    if d < s.len() && '0' <= s[d] && s[d] <= '9' {
        proof {
            lemma_digits_end(s@, d as int);
        }
        Some(digits_end_exec(s, d))
    } else {
        None
    }
}

/// The value of the digits from `i` to `d`, or `None` where it exceeds `u64::MAX`.
pub fn digits_value_exec(s: &Vec<char>, i: usize, d: usize) -> (r: Option<u64>)
    requires
        i <= d <= s@.len(),
        forall|k: int| i <= k < d ==> is_ascii_digit(#[trigger] s@[k]),
    ensures
        match r {
            Some(v) => v == digits_value(s@.subrange(i as int, d as int)),
            None => digits_value(s@.subrange(i as int, d as int)) > u64::MAX,
        },
{
    let mut acc: u64 = 0;
    let mut k = i;
    while k < d
        invariant
            i <= k <= d <= s@.len(),
            forall|m: int| i <= m < d ==> is_ascii_digit(#[trigger] s@[m]),
            acc == digits_value(s@.subrange(i as int, k as int)),
        decreases d - k,
    {
        let ghost t = s@.subrange(i as int, k + 1);
        assert(t.drop_last() =~= s@.subrange(i as int, k as int));
        assert(t.last() == s@[k as int]);
        assert(is_ascii_digit(s@[k as int]));
        let dv = (s[k] as u32 - '0' as u32) as u64;
        match acc.checked_mul(10) {
            Some(m) => match m.checked_add(dv) {
                Some(n) => {
                    acc = n;
                },
                None => {
                    proof {
                        lemma_digits_value_grows(s@.subrange(i as int, d as int), (k + 1 - i) as nat);
                        assert(s@.subrange(i as int, d as int).take(k + 1 - i) =~= t);
                    }
                    return None;
                },
            },
            None => {
                proof {
                    lemma_digits_value_grows(s@.subrange(i as int, d as int), (k + 1 - i) as nat);
                    assert(s@.subrange(i as int, d as int).take(k + 1 - i) =~= t);
                }
                return None;
            },
        }
        k += 1;
    }
    Some(acc)
}

/// A run of digits is worth at least as much as each of its prefixes.
proof fn lemma_digits_value_grows(d: Seq<char>, n: nat)
    requires
        n <= d.len(),
    ensures
        digits_value(d.take(n as int)) <= digits_value(d),
    decreases d.len(),
{
    if n < d.len() {
        assert(d.drop_last().take(n as int) =~= d.take(n as int));
        lemma_digits_value_grows(d.drop_last(), n);
    } else {
        assert(d.take(n as int) =~= d);
    }
}

/// Exec form of [`number`].
pub fn number_exec(s: &Vec<char>, i: usize) -> (r: Option<(Number, usize)>)
    requires
        i < s@.len(),
        is_ascii_digit(s@[i as int]),
    ensures
        match number(s@, i as int) {
            Some((n, j)) => r matches Some((m, k)) && m@ == n && k == j && i < k <= s@.len()
                && n.wf(),
            None => r is None,
        },
{
    proof {
        lemma_digits_end(s@, i as int);
    }
    let d = digits_end_exec(s, i);
    assert(d > i);
    if d < s.len() && s.len() - d > 1 && s[d] == '.' && '0' <= s[d + 1] && s[d + 1] <= '9' {
        proof {
            lemma_digits_end(s@, d + 1);
        }
        let f = digits_end_exec(s, d + 1);
        if f < s.len() && (s[f] == 'e' || s[f] == 'E') {
            match exponent_end_exec(s, f) {
                Some(e) => {
                    let t = slice_chars(s, i, e);
                    Some((Number::Float(string_of(t.as_slice())), e))
                },
                None => None,
            }
        } else {
            let t = slice_chars(s, i, f);
            Some((Number::Float(string_of(t.as_slice())), f))
        }
    } else if d < s.len() && (s[d] == 'e' || s[d] == 'E') {
        match exponent_end_exec(s, d) {
            Some(e) => {
                let t = slice_chars(s, i, e);
                Some((Number::Float(string_of(t.as_slice())), e))
            },
            None => None,
        }
    } else {
        proof {
            lemma_digits_run(s@, i as int);
        }
        match digits_value_exec(s, i, d) {
            Some(v) => Some((Number::PosInt(v), d)),
            None => None,
        }
    }
}

pub proof fn lemma_digits_run(s: Seq<char>, i: int)
    requires
        0 <= i <= s.len(),
    ensures
        forall|k: int| i <= k < digits_end(s, i) ==> is_ascii_digit(#[trigger] s[k]),
    decreases s.len() - i,
{
    if i < s.len() && is_ascii_digit(s[i]) {
        lemma_digits_run(s, i + 1);
    }
}

// ---------------------------------------------------------------------------------------------
// String literals
// ---------------------------------------------------------------------------------------------

/// The character that a one-letter escape sequence `\c` in a string literal stands for.
pub open spec fn literal_escape(c: char) -> Option<char> {
    if c == 'n' {
        Some('\n')
    } else if c == 'r' {
        Some('\r')
    } else if c == 't' {
        Some('\t')
    } else if c == '\\' {
        Some('\\')
    } else if c == '"' {
        Some('"')
    } else if c == '/' {
        Some('/')
    } else if c == 'b' {
        Some('\u{8}')
    } else if c == 'f' {
        Some('\u{c}')
    } else {
        None
    }
}

/// Whether every character of `d` is a hexadecimal digit.
pub open spec fn all_hex(d: Seq<char>) -> bool {
    forall|k: int| 0 <= k < d.len() ==> (#[trigger] hex_value(d[k])) is Some
}

/// The value of a run of hexadecimal digits.
pub open spec fn hex_run_value(d: Seq<char>) -> nat
    decreases d.len(),
{
    if d.len() == 0 {
        0
    } else {
        hex_run_value(d.drop_last()) * 16 + hex_value(d.last()).unwrap() as nat
    }
}

/// The escape sequence at `k`, where `s[k]` is a backslash: the character it stands for and the
/// position after it. Besides the one-letter escapes, `\u` takes exactly four and `\U` exactly
/// eight hexadecimal digits, which must name a unicode scalar value.
pub open spec fn escape_at(s: Seq<char>, k: int) -> Option<(char, int)> {
    if k + 1 < s.len() && literal_escape(s[k + 1]) is Some {
        Some((literal_escape(s[k + 1]).unwrap(), k + 2))
    } else if k + 1 < s.len() && (s[k + 1] == 'u' || s[k + 1] == 'U') {
        let n: int = if s[k + 1] == 'u' {
            4
        } else {
            8
        };
        let d = s.subrange(k + 2, k + 2 + n);
        if k + 2 + n <= s.len() && all_hex(d) && hex_run_value(d) <= 0x10FFFF && is_scalar_value(
            hex_run_value(d) as u32,
        ) {
            Some(((hex_run_value(d) as u32) as char, k + 2 + n))
        } else {
            None
        }
    } else {
        None
    }
}

/// Puts `p` in front of the text of a successful scan.
pub open spec fn prepend(p: Seq<char>, r: Option<(Seq<char>, int)>) -> Option<(Seq<char>, int)> {
    match r {
        Some((t, e)) => Some((p + t, e)),
        None => None,
    }
}

/// The content of a quoted string from `k` (just after the opening quote) up to the closing
/// quote: the text with its escape sequences decoded, and the position of the closing quote.
///
/// For a plain string (`plain`), the escaped template markers `$${` and `%%{` stand for `${` and
/// `%{`, and an unescaped `${` or `%{` means that the string is a template: no result. For a
/// template the markers are kept as written.
pub open spec fn str_content(s: Seq<char>, k: int, plain: bool) -> Option<(Seq<char>, int)>
    decreases s.len() - k,
{
    if k < 0 || k >= s.len() {
        None
    } else if s[k] == '"' {
        Some((seq![], k))
    } else if s[k] == '\\' {
        match escape_at(s, k) {
            Some((c, j)) => if k < j <= s.len() {
                prepend(seq![c], str_content(s, j, plain))
            } else {
                None
            },
            None => None,
        }
    } else if plain && at(s, k, seq!['$', '$', '{']) {
        prepend(seq!['$', '{'], str_content(s, k + 3, plain))
    } else if plain && at(s, k, seq!['%', '%', '{']) {
        prepend(seq!['%', '{'], str_content(s, k + 3, plain))
    } else if plain && (at(s, k, seq!['$', '{']) || at(s, k, seq!['%', '{'])) {
        None
    } else {
        prepend(seq![s[k]], str_content(s, k + 1, plain))
    }
}

proof fn lemma_str_content(s: Seq<char>, k: int, plain: bool)
    requires
        0 <= k,
    ensures
        str_content(s, k, plain) matches Some((t, e)) ==> k <= e < s.len() && s[e] == '"',
    decreases s.len() - k,
{
    if 0 <= k < s.len() && s[k] != '"' {
        if s[k] == '\\' {
            if let Some((c, j)) = escape_at(s, k) {
                if k < j <= s.len() {
                    lemma_str_content(s, j, plain);
                }
            }
        } else if plain && (at(s, k, seq!['$', '$', '{']) || at(s, k, seq!['%', '%', '{'])) {
            lemma_str_content(s, k + 3, plain);
        } else {
            lemma_str_content(s, k + 1, plain);
        }
    }
}

/// The value of the `n` hex digits from `k` (exec), if they are all hex digits.
fn hex_run_exec(s: &Vec<char>, k: usize, n: usize) -> (r: Option<u32>)
    requires
        n <= 8,
        k + n <= s@.len(),
    ensures
        match r {
            Some(v) => all_hex(s@.subrange(k as int, k + n)) && v == hex_run_value(
                s@.subrange(k as int, k + n),
            ),
            None => !all_hex(s@.subrange(k as int, k + n)),
        },
{
    let mut acc: u64 = 0;
    let mut j: usize = 0;
    let ghost d = s@.subrange(k as int, k + n);
    while j < n
        invariant
            j <= n <= 8,
            k + n <= s@.len(),
            s@.len() == s.len(),
            d == s@.subrange(k as int, k + n),
            all_hex(d.take(j as int)),
            acc == hex_run_value(d.take(j as int)),
            acc < pow16(j as nat),
        decreases n - j,
    {
        assert(d.take(j + 1).drop_last() =~= d.take(j as int));
        assert(d[j as int] == s@[k + j]);
        assert(k + j < s@.len());
        let idx: usize = k + j;
        match hex_digit(s[idx]) {
            Some(h) => {
                proof {
                    lemma_pow16_bound(j as nat);
                    assert(all_hex(d.take(j + 1))) by {
                        assert forall|m: int| 0 <= m < j + 1 implies (#[trigger] hex_value(
                            d.take(j + 1)[m],
                        )) is Some by {
                            if m < j {
                                assert(d.take(j + 1)[m] == d.take(j as int)[m]);
                            }
                        }
                    }
                }
                acc = acc * 16 + h as u64;
            },
            None => {
                assert(hex_value(d[j as int]) is None);
                return None;
            },
        }
        j += 1;
    }
    assert(d.take(n as int) =~= d);
    proof {
        lemma_pow16_bound(n as nat);
    }
    Some(acc as u32)
}

/// Sixteen to the power `n`.
pub open spec fn pow16(n: nat) -> nat
    decreases n,
{
    if n == 0 {
        1
    } else {
        16 * pow16((n - 1) as nat)
    }
}

proof fn lemma_pow16_bound(n: nat)
    requires
        n <= 8,
    ensures
        pow16(n) <= 0x1_0000_0000,
        n < 8 ==> pow16(n + 1) == 16 * pow16(n),
{
    reveal_with_fuel(pow16, 9);
}

/// Exec form of [`escape_at`].
fn escape_at_exec(s: &Vec<char>, k: usize) -> (r: Option<(char, usize)>)
    requires
        k < s@.len(),
    ensures
        match escape_at(s@, k as int) {
            Some((c, j)) => r == Some((c, j as usize)) && k < j <= s@.len(),
            None => r is None,
        },
{
    if s.len() - k < 2 {
        return None;
    }
    let c = s[k + 1];
    if c == 'n' {
        Some(('\n', k + 2))
    } else if c == 'r' {
        Some(('\r', k + 2))
    } else if c == 't' {
        Some(('\t', k + 2))
    } else if c == '\\' {
        Some(('\\', k + 2))
    } else if c == '"' {
        Some(('"', k + 2))
    } else if c == '/' {
        Some(('/', k + 2))
    } else if c == 'b' {
        Some(('\u{8}', k + 2))
    } else if c == 'f' {
        Some(('\u{c}', k + 2))
    } else if c == 'u' || c == 'U' {
        let n: usize = if c == 'u' {
            4
        } else {
            8
        };
        if s.len() - k - 2 < n {
            return None;
        }
        match hex_run_exec(s, k + 2, n) {
            Some(v) => {
                if v <= 0x10FFFF {
                    match char_from_u32(v) {
                        Some(ch) => Some((ch, k + 2 + n)),
                        None => None,
                    }
                } else {
                    None
                }
            },
            None => None,
        }
    } else {
        None
    }
}

/// Exec form of [`str_content`].
pub fn str_content_exec(s: &Vec<char>, k: usize, plain: bool) -> (r: Option<(Vec<char>, usize)>)
    requires
        k <= s@.len(),
    ensures
        match str_content(s@, k as int, plain) {
            Some((t, e)) => r matches Some((v, f)) && v@ == t && f == e && k <= f < s@.len(),
            None => r is None,
        },
{
    proof {
        lemma_str_content(s@, k as int, plain);
    }
    let mut out: Vec<char> = Vec::new();
    let mut j = k;
    loop
        invariant
            k <= j <= s@.len(),
            str_content(s@, k as int, plain) == prepend(out@, str_content(s@, j as int, plain)),
        decreases s@.len() - j,
    {
        if j >= s.len() {
            return None;
        }
        let c = s[j];
        if c == '"' {
            assert(out@ + seq![] =~= out@);
            return Some((out, j));
        } else if c == '\\' {
            match escape_at_exec(s, j) {
                Some((e, n)) => {
                    proof {
                        assert(out@ + (seq![e] + (str_content(s@, n as int, plain)->0).0)
                            =~= out@.push(e) + (str_content(s@, n as int, plain)->0).0);
                    }
                    out.push(e);
                    j = n;
                },
                None => return None,
            }
        } else if plain && at2_exec(s, j, '$', '$') && j + 2 < s.len() && s[j + 2] == '{' {
            proof {
                assert(s@.subrange(j as int, j + 3) =~= seq!['$', '$', '{']);
                assert(out@ + (seq!['$', '{'] + (str_content(s@, j + 3, plain)->0).0)
                    =~= out@.push('$').push('{') + (str_content(s@, j + 3, plain)->0).0);
            }
            out.push('$');
            out.push('{');
            j = j + 3;
        } else if plain && at2_exec(s, j, '%', '%') && j + 2 < s.len() && s[j + 2] == '{' {
            proof {
                assert(s@.subrange(j as int, j + 3) =~= seq!['%', '%', '{']);
                assert(out@ + (seq!['%', '{'] + (str_content(s@, j + 3, plain)->0).0)
                    =~= out@.push('%').push('{') + (str_content(s@, j + 3, plain)->0).0);
            }
            out.push('%');
            out.push('{');
            j = j + 3;
        } else if plain && (at2_exec(s, j, '$', '{') || at2_exec(s, j, '%', '{')) {
            proof {
                if at(s@, j as int, seq!['$', '$', '{']) {
                    assert(s@.subrange(j as int, j + 3)[1] == '$');
                    assert(s@[j + 1] == '$');
                    assert(s@.subrange(j as int, j + 2)[1] == s@[j + 1]);
                }
                if at(s@, j as int, seq!['%', '%', '{']) {
                    assert(s@.subrange(j as int, j + 3)[1] == '%');
                    assert(s@.subrange(j as int, j + 2)[1] == s@[j + 1]);
                }
            }
            return None;
        } else {
            proof {
                if plain && at(s@, j as int, seq!['$', '$', '{']) {
                    assert(s@.subrange(j as int, j + 3)[1] == '$');
                    assert(s@.subrange(j as int, j + 3)[2] == '{');
                    assert(s@.subrange(j as int, j + 2) =~= seq!['$', '$']);
                }
                if plain && at(s@, j as int, seq!['%', '%', '{']) {
                    assert(s@.subrange(j as int, j + 3)[1] == '%');
                    assert(s@.subrange(j as int, j + 3)[2] == '{');
                    assert(s@.subrange(j as int, j + 2) =~= seq!['%', '%']);
                }
                assert(out@ + (seq![c] + (str_content(s@, j + 1, plain)->0).0) =~= out@.push(c)
                    + (str_content(s@, j + 1, plain)->0).0);
            }
            out.push(c);
            j = j + 1;
        }
    }
}

// ---------------------------------------------------------------------------------------------
// Heredocs
// ---------------------------------------------------------------------------------------------

/// The end of the run of spaces and tabs from `k`.
pub open spec fn blank_end(s: Seq<char>, k: int) -> int
    decreases s.len() - k,
{
    if 0 <= k < s.len() && (s[k] == ' ' || s[k] == '\t') {
        blank_end(s, k + 1)
    } else {
        k
    }
}

/// The length of the line ending at `k`: 1 for `\n`, 2 for `\r\n`, 0 where there is none.
pub open spec fn newline_len(s: Seq<char>, k: int) -> int {
    if at(s, k, seq!['\n']) {
        1
    } else if at(s, k, seq!['\r', '\n']) {
        2
    } else {
        0
    }
}

/// The position of the first line ending at or after `k` that is followed by blanks and the
/// delimiter `d`.
pub open spec fn heredoc_close(s: Seq<char>, k: int, d: Seq<char>) -> Option<int>
    decreases s.len() - k,
{
    if k < 0 || k >= s.len() {
        None
    } else if newline_len(s, k) > 0 && at(s, blank_end(s, k + newline_len(s, k)), d) {
        Some(k)
    } else {
        heredoc_close(s, k + 1, d)
    }
}

/// The template of a heredoc with its escapes applied: a backslash followed by whitespace and
/// line endings is removed together with them, and a doubled backslash stands for one.
pub open spec fn heredoc_text(t: Seq<char>) -> Seq<char>
    decreases t.len(),
{
    if t.len() == 0 {
        seq![]
    } else if t[0] == '\\' && t.len() > 1 && t[1] == '\\' {
        seq!['\\'] + heredoc_text(t.skip(2))
    } else if t[0] == '\\' && t.len() > 1 && is_multispace(t[1]) {
        proof {
            lemma_blank_run(t.drop_first());
        }
        heredoc_text(t.skip((1 + blank_run(t.drop_first())) as int))
    } else {
        seq![t[0]] + heredoc_text(t.drop_first())
    }
}

/// Whether `c` is a space, a tab or a line ending character.
pub open spec fn is_multispace(c: char) -> bool {
    c == ' ' || c == '\t' || c == '\n' || c == '\r'
}

/// The length of the run of whitespace (including line endings) at the start of `t`.
pub open spec fn blank_run(t: Seq<char>) -> nat
    decreases t.len(),
{
    if t.len() > 0 && is_multispace(t[0]) {
        1 + blank_run(t.drop_first())
    } else {
        0
    }
}

pub proof fn lemma_blank_run(t: Seq<char>)
    ensures
        blank_run(t) <= t.len(),
        t.len() > 0 && is_multispace(t[0]) ==> blank_run(t) >= 1,
    decreases t.len(),
{
    if t.len() > 0 && is_multispace(t[0]) {
        lemma_blank_run(t.drop_first());
    }
}

/// The template of a heredoc with its escapes applied: a backslash followed by whitespace and
/// line endings is removed together with them, and `\\\\` stands for one backslash.
pub fn heredoc_text_exec(t: &Vec<char>) -> (r: Vec<char>)
    ensures
        r@ == heredoc_text(t@),
{
    let mut out: Vec<char> = Vec::new();
    let mut k: usize = 0;
    assert(t@.skip(0) =~= t@);
    while k < t.len()
        invariant
            k <= t@.len(),
            heredoc_text(t@) == out@ + heredoc_text(t@.skip(k as int)),
        decreases t@.len() - k,
    {
        let ghost rest = t@.skip(k as int);
        assert(rest[0] == t@[k as int]);
        if t[k] == '\\' && t.len() - k > 1 && t[k + 1] == '\\' {
            assert(rest[1] == t@[k + 1]);
            assert(rest.skip(2) =~= t@.skip(k + 2));
            out.push('\\');
            assert(heredoc_text(t@) == out@ + heredoc_text(t@.skip(k + 2)));
            k = k + 2;
        } else if t[k] == '\\' && t.len() - k > 1 && (t[k + 1] == ' ' || t[k + 1] == '\t' || t[k + 1] == '\n' || t[k + 1] == '\r') {
            assert(rest[1] == t@[k + 1]);
            let mut j = k + 1;
            proof {
                lemma_blank_run(rest.drop_first());
                assert(rest.drop_first() =~= t@.skip(k + 1));
            }
            while j < t.len() && (t[j] == ' ' || t[j] == '\t' || t[j] == '\n' || t[j] == '\r')
                invariant
                    k + 1 <= j <= t@.len(),
                    blank_run(t@.skip(k + 1)) == (j - (k + 1)) + blank_run(t@.skip(j as int)),
                decreases t@.len() - j,
            {
                assert(t@.skip(j as int)[0] == t@[j as int]);
                assert(t@.skip(j as int).drop_first() =~= t@.skip(j + 1));
                j += 1;
            }
            proof {
                if j < t@.len() {
                    assert(t@.skip(j as int)[0] == t@[j as int]);
                }
                assert(rest.skip((1 + blank_run(rest.drop_first())) as int) =~= t@.skip(j as int));
            }
            k = j;
        } else {
            proof {
                assert(rest.drop_first() =~= t@.skip(k + 1));
                assert(out@.push(t@[k as int]) + heredoc_text(t@.skip(k + 1)) =~= out@ + (seq![t@[k as int]] + heredoc_text(t@.skip(k + 1))));
            }
            out.push(t[k]);
            k = k + 1;
        }
    }
    assert(out@ + heredoc_text(t@.skip(k as int)) =~= out@);
    out
}

/// A heredoc at `i`: `<<` or `<<-`, an identifier (the delimiter) and a line ending, then the
/// template up to and including the first line ending that is followed by blanks and the
/// delimiter; where no such line ending exists, the template is empty and the delimiter must
/// follow at once. The result is the delimiter, the template, the strip mode and the position
/// after the closing delimiter.
pub open spec fn heredoc(s: Seq<char>, i: int) -> Option<
    (Seq<char>, Seq<char>, HeredocStripMode, int),
> {
    if at(s, i, seq!['<', '<']) {
        let indent = i + 2 < s.len() && s[i + 2] == '-';
        let p = if indent {
            i + 3
        } else {
            i + 2
        };
        let mode = if indent {
            HeredocStripMode::Indent
        } else {
            HeredocStripMode::NoStrip
        };
        match ident(s, p) {
            Some((d, q)) => if newline_len(s, q) > 0 {
                let c = q + newline_len(s, q);
                match heredoc_close(s, c, d) {
                    Some(n) => Some(
                        (
                            d,
                            heredoc_text(s.subrange(c, n).push('\n')),
                            mode,
                            blank_end(s, n + newline_len(s, n)) + d.len(),
                        ),
                    ),
                    None => if at(s, blank_end(s, c), d) {
                        Some((d, seq![], mode, blank_end(s, c) + d.len()))
                    } else {
                        None
                    },
                }
            } else {
                None
            },
            None => None,
        }
    } else {
        None
    }
}

proof fn lemma_blank_end(s: Seq<char>, k: int)
    requires
        0 <= k <= s.len(),
    ensures
        k <= blank_end(s, k) <= s.len(),
    decreases s.len() - k,
{
    if k < s.len() && (s[k] == ' ' || s[k] == '\t') {
        lemma_blank_end(s, k + 1);
    }
}

proof fn lemma_heredoc_close(s: Seq<char>, k: int, d: Seq<char>)
    requires
        0 <= k,
    ensures
        heredoc_close(s, k, d) matches Some(n) ==> k <= n < s.len() && newline_len(s, n) > 0
            && at(s, blank_end(s, n + newline_len(s, n)), d),
    decreases s.len() - k,
{
    if 0 <= k < s.len() && !(newline_len(s, k) > 0 && at(
        s,
        blank_end(s, k + newline_len(s, k)),
        d,
    )) {
        lemma_heredoc_close(s, k + 1, d);
    }
}

fn blank_end_exec(s: &Vec<char>, k: usize) -> (r: usize)
    requires
        k <= s@.len(),
    ensures
        r == blank_end(s@, k as int),
        k <= r <= s@.len(),
{
    let mut j = k;
    while j < s.len() && (s[j] == ' ' || s[j] == '\t')
        invariant
            k <= j <= s@.len(),
            blank_end(s@, k as int) == blank_end(s@, j as int),
        decreases s@.len() - j,
    {
        j += 1;
    }
    j
}

fn newline_len_exec(s: &Vec<char>, k: usize) -> (r: usize)
    requires
        k <= s@.len(),
    ensures
        r == newline_len(s@, k as int),
        r <= 2,
        k + r <= s@.len(),
{
    if k < s.len() && s[k] == '\n' {
        assert(s@.subrange(k as int, k + 1) =~= seq!['\n']);
        1
    } else if at2_exec(s, k, '\r', '\n') {
        proof {
            if at(s@, k as int, seq!['\n']) {
                assert(s@.subrange(k as int, k + 1)[0] == s@[k as int]);
            }
        }
        2
    } else {
        proof {
            if at(s@, k as int, seq!['\n']) {
                assert(s@.subrange(k as int, k + 1)[0] == s@[k as int]);
            }
        }
        0
    }
}

/// Exec form of [`heredoc_close`].
fn heredoc_close_exec(s: &Vec<char>, k: usize, d: &Vec<char>) -> (r: Option<usize>)
    requires
        k <= s@.len(),
    ensures
        match heredoc_close(s@, k as int, d@) {
            Some(n) => r == Some(n as usize),
            None => r is None,
        },
{
    proof {
        lemma_heredoc_close(s@, k as int, d@);
    }
    let mut j = k;
    while j < s.len()
        invariant
            k <= j <= s@.len(),
            heredoc_close(s@, k as int, d@) == heredoc_close(s@, j as int, d@),
        decreases s@.len() - j,
    {
        let n = newline_len_exec(s, j);
        if n > 0 {
            let b = blank_end_exec(s, j + n);
            if at_exec(s, b, d.as_slice()) {
                return Some(j);
            }
        }
        j += 1;
    }
    None
}

/// Exec form of [`heredoc`].
pub fn heredoc_exec(s: &Vec<char>, i: usize) -> (r: Option<
    (Vec<char>, Vec<char>, HeredocStripMode, usize),
>)
    requires
        i <= s@.len(),
    ensures
        match heredoc(s@, i as int) {
            Some((d, t, m, e)) => r matches Some((dv, tv, mv, ev)) && dv@ == d && tv@ == t && mv
                == m && ev == e && i < e <= s@.len(),
            None => r is None,
        },
{
    if !at2_exec(s, i, '<', '<') {
        return None;
    }
    let indent = s.len() - i > 2 && s[i + 2] == '-';
    let p = if indent {
        i + 3
    } else {
        i + 2
    };
    let mode = if indent {
        HeredocStripMode::Indent
    } else {
        HeredocStripMode::NoStrip
    };
    match ident_exec(s, p) {
        Some((d, q)) => {
            let nl = newline_len_exec(s, q);
            if nl == 0 {
                return None;
            }
            let c = q + nl;
            match heredoc_close_exec(s, c, &d) {
                Some(n) => {
                    proof {
                        lemma_heredoc_close(s@, c as int, d@);
                    }
                    let mut t = slice_chars(s, c, n);
                    t.push('\n');
                    let t2 = heredoc_text_exec(&t);
                    let nl2 = newline_len_exec(s, n);
                    let b = blank_end_exec(s, n + nl2);
                    proof {
                        lemma_ident_end(s@, p + 1);
                    }
                    assert(at(s@, b as int, d@));
                    let e = b + d.len();
                    Some((d, t2, mode, e))
                },
                None => {
                    let b = blank_end_exec(s, c);
                    if at_exec(s, b, d.as_slice()) {
                        let e = b + d.len();
                        Some((d, Vec::new(), mode, e))
                    } else {
                        None
                    }
                },
            }
        },
        None => None,
    }
}

} // verus!
