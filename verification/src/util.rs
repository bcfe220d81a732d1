//! String utilities: escaping, unescaping, template marker detection, identifiers and
//! indentation handling.
use vstd::prelude::*;
use crate::error::Error;
use crate::text::{chars_of, string_of, push_char};

verus! {

// ---------------------------------------------------------------------------------------------
// Unicode scalar values
// ---------------------------------------------------------------------------------------------

/// Whether `n` is a unicode scalar value, i.e. a value that `char::from_u32` accepts.
pub open spec fn is_scalar_value(n: u32) -> bool {
    n < 0xD800 || (0xE000 <= n && n <= 0x10FFFF)
}

/// Converts a code point into a `char` (`char::from_u32`): `Some` exactly for scalar values,
/// and then the character has that code point.
#[verifier::external_body]
pub(crate) fn char_from_u32(n: u32) -> (r: Option<char>)
    ensures
        r is Some <==> is_scalar_value(n),
        r matches Some(c) ==> c as u32 == n && c == n as char,
{
    char::from_u32(n)
}

/// The value of a hexadecimal digit, if `c` is one.
pub open spec fn hex_value(c: char) -> Option<u32> {
    if '0' <= c && c <= '9' {
        Some((c as u32 - '0' as u32) as u32)
    } else if 'a' <= c && c <= 'f' {
        Some((c as u32 - 'a' as u32 + 10) as u32)
    } else if 'A' <= c && c <= 'F' {
        Some((c as u32 - 'A' as u32 + 10) as u32)
    } else {
        None
    }
}

/// Returns the value of the hexadecimal digit `c`, or `None` if `c` is not a hex digit.
pub fn hex_digit(c: char) -> (r: Option<u32>)
    ensures
        r == hex_value(c),
{
    if '0' <= c && c <= '9' {
        Some(c as u32 - '0' as u32)
    } else if 'a' <= c && c <= 'f' {
        Some(c as u32 - 'a' as u32 + 10)
    } else if 'A' <= c && c <= 'F' {
        Some(c as u32 - 'A' as u32 + 10)
    } else {
        None
    }
}

/// The numeric value of four hexadecimal characters as `u32::from_str_radix(_, 16)` reads
/// them: either four hex digits, or a `+` sign followed by three hex digits.
pub open spec fn hex4_value(d: Seq<char>) -> Option<u32>
    recommends
        d.len() == 4,
{
    if hex_value(d[1]) is Some && hex_value(d[2]) is Some && hex_value(d[3]) is Some {
        let low = hex_value(d[1]).unwrap() * 256 + hex_value(d[2]).unwrap() * 16 + hex_value(
            d[3],
        ).unwrap();
        if d[0] == '+' {
            Some(low as u32)
        } else if hex_value(d[0]) is Some {
            Some((hex_value(d[0]).unwrap() * 4096 + low) as u32)
        } else {
            None
        }
    } else {
        None
    }
}

fn hex4(a: char, b: char, c: char, d: char) -> (r: Option<u32>)
    ensures
        r == hex4_value(seq![a, b, c, d]),
{
    let ghost s = seq![a, b, c, d];
    assert(s[0] == a && s[1] == b && s[2] == c && s[3] == d);
    match (hex_digit(b), hex_digit(c), hex_digit(d)) {
        (Some(x), Some(y), Some(z)) => {
            let low = x * 256 + y * 16 + z;
            if a == '+' {
                Some(low)
            } else {
                match hex_digit(a) {
                    Some(w) => Some(w * 4096 + low),
                    None => None,
                }
            }
        },
        _ => None,
    }
}

// ---------------------------------------------------------------------------------------------
// Unescaping
// ---------------------------------------------------------------------------------------------

/// The reasons for which unescaping can fail.
pub enum UnescapeFailure {
    /// An unknown escape character.
    Escape(char),
    /// An invalid `\u` sequence (the characters that were read after `\u`).
    CodePoint(Seq<char>),
    /// The input ended right after a backslash.
    Eof,
}

/// The character that a single-character escape sequence `\c` stands for.
pub open spec fn simple_escape(c: char) -> Option<char> {
    if c == 'b' {
        Some('\u{8}')
    } else if c == 'f' {
        Some('\u{c}')
    } else if c == 'n' {
        Some('\n')
    } else if c == 'r' {
        Some('\r')
    } else if c == 't' {
        Some('\t')
    } else if c == '\'' {
        Some('\'')
    } else if c == '"' {
        Some('"')
    } else if c == '\\' {
        Some('\\')
    } else {
        None
    }
}

fn simple_escape_exec(c: char) -> (r: Option<char>)
    ensures
        r == simple_escape(c),
{
    if c == 'b' {
        Some('\u{8}')
    } else if c == 'f' {
        Some('\u{c}')
    } else if c == 'n' {
        Some('\n')
    } else if c == 'r' {
        Some('\r')
    } else if c == 't' {
        Some('\t')
    } else if c == '\'' {
        Some('\'')
    } else if c == '"' {
        Some('"')
    } else if c == '\\' {
        Some('\\')
    } else {
        None
    }
}

/// Puts `prefix` in front of a successful result and passes failures through.
pub open spec fn prepend_ok(prefix: Seq<char>, r: Result<Seq<char>, UnescapeFailure>) -> Result<
    Seq<char>,
    UnescapeFailure,
> {
    match r {
        Ok(rest) => Ok(prefix + rest),
        Err(e) => Err(e),
    }
}

/// The result of replacing the backslash escape sequences of `s` by the characters they stand
/// for: `\b \f \n \r \t \' \" \\` and `\uXXXX` (four hex digits naming a scalar value).
pub open spec fn unescape_seq(s: Seq<char>) -> Result<Seq<char>, UnescapeFailure>
    decreases s.len(),
{
    if s.len() == 0 {
        Ok(seq![])
    } else if s[0] != '\\' {
        prepend_ok(seq![s[0]], unescape_seq(s.drop_first()))
    } else if s.len() == 1 {
        Err(UnescapeFailure::Eof)
    } else if simple_escape(s[1]) is Some {
        prepend_ok(seq![simple_escape(s[1]).unwrap()], unescape_seq(s.skip(2)))
    } else if s[1] == 'u' {
        if s.len() < 6 {
            Err(UnescapeFailure::CodePoint(s.skip(2)))
        } else {
            let digits = s.subrange(2, 6);
            match hex4_value(digits) {
                Some(n) => if is_scalar_value(n) {
                    prepend_ok(seq![n as char], unescape_seq(s.skip(6)))
                } else {
                    Err(UnescapeFailure::CodePoint(digits))
                },
                None => Err(UnescapeFailure::CodePoint(digits)),
            }
        }
    } else {
        Err(UnescapeFailure::Escape(s[1]))
    }
}

/// Whether the library error `e` reports the unescape failure `f`.
pub open spec fn reports(e: Error, f: UnescapeFailure) -> bool {
    match f {
        UnescapeFailure::Escape(c) => e == Error::InvalidEscape(c),
        UnescapeFailure::CodePoint(d) => e matches Error::InvalidUnicodeCodePoint(s) && s@ == d,
        UnescapeFailure::Eof => e == Error::Eof,
    }
}

/// Unescapes a sequence of characters.
pub fn unescape_chars(s: &Vec<char>) -> (r: Result<Vec<char>, Error>)
    ensures
        match unescape_seq(s@) {
            Ok(o) => r matches Ok(v) && v@ == o,
            Err(f) => r matches Err(e) && reports(e, f),
        },
{
    let mut out: Vec<char> = Vec::new();
    let mut i: usize = 0;
    let n = s.len();
    assert(s@.skip(0) =~= s@);
    proof {
        if let Ok(o) = unescape_seq(s@) {
            assert(seq![] + o =~= o);
        }
    }
    while i < n
        invariant
            n == s@.len(),
            i <= n,
            unescape_seq(s@) == prepend_ok(out@, unescape_seq(s@.skip(i as int))),
        decreases n - i,
    {
        let ghost rest = s@.skip(i as int);
        let ghost old_out = out@;
        assert(rest[0] == s@[i as int]);
        let c = s[i];
        if c != '\\' {
            out.push(c);
            assert(rest.drop_first() =~= s@.skip(i + 1));
            assert(old_out + (seq![c] + unescape_seq(rest.drop_first())->Ok_0) =~= out@
                + unescape_seq(rest.drop_first())->Ok_0);
            i += 1;
        } else if i + 1 == n {
            return Err(Error::Eof);
        } else {
            let e = s[i + 1];
            assert(rest[1] == e);
            match simple_escape_exec(e) {
                Some(d) => {
                    out.push(d);
                    assert(rest.skip(2) =~= s@.skip(i + 2));
                    assert(old_out + (seq![d] + unescape_seq(rest.skip(2))->Ok_0) =~= out@
                        + unescape_seq(rest.skip(2))->Ok_0);
                    i += 2;
                },
                None => {
                    if e == 'u' {
                        if n - i < 6 {
                            let mut scratch = String::new();
                            let mut j = i + 2;
                            while j < n
                                invariant
                                    i + 2 <= j <= n,
                                    n == s@.len(),
                                    scratch@ == s@.subrange(i + 2, j as int),
                                decreases n - j,
                            {
                                push_char(&mut scratch, s[j]);
                                assert(s@.subrange(i + 2, j as int).push(s@[j as int])
                                    =~= s@.subrange(i + 2, j + 1));
                                j += 1;
                            }
                            assert(rest.skip(2) =~= s@.subrange(i + 2, n as int));
                            return Err(Error::InvalidUnicodeCodePoint(scratch));
                        }
                        let a = s[i + 2];
                        let b = s[i + 3];
                        let c2 = s[i + 4];
                        let d = s[i + 5];
                        let ghost digits = rest.subrange(2, 6);
                        assert(digits =~= seq![a, b, c2, d]);
                        let mut scratch = String::new();
                        push_char(&mut scratch, a);
                        push_char(&mut scratch, b);
                        push_char(&mut scratch, c2);
                        push_char(&mut scratch, d);
                        assert(scratch@ =~= digits);
                        match hex4(a, b, c2, d) {
                            Some(v) => match char_from_u32(v) {
                                Some(ch) => {
                                    out.push(ch);
                                    assert(ch == v as char);
                                    assert(rest.skip(6) =~= s@.skip(i + 6));
                                    assert(old_out + (seq![ch] + unescape_seq(
                                        rest.skip(6),
                                    )->Ok_0) =~= out@ + unescape_seq(rest.skip(6))->Ok_0);
                                    i += 6;
                                },
                                None => {
                                    return Err(Error::InvalidUnicodeCodePoint(scratch));
                                },
                            },
                            None => {
                                return Err(Error::InvalidUnicodeCodePoint(scratch));
                            },
                        }
                    } else {
                        return Err(Error::InvalidEscape(e));
                    }
                },
            }
        }
    }
    assert(s@.skip(n as int) =~= seq![]);
    assert(out@ + seq![] =~= out@);
    Ok(out)
}

/// Takes in a string with backslash escapes written out with literal backslash characters and
/// converts it to a string with the proper escaped characters.
///
/// Fails with an error if an invalid or incomplete escape sequence or unicode code point is
/// encountered.
pub fn unescape(s: &str) -> (r: Result<String, Error>)
    ensures
        match unescape_seq(s@) {
            Ok(o) => r matches Ok(v) && v@ == o,
            Err(f) => r matches Err(e) && reports(e, f),
        },
{
    let v = chars_of(s);
    match unescape_chars(&v) {
        Ok(o) => Ok(string_of(o.as_slice())),
        Err(e) => Err(e),
    }
}

/// Like [`unescape`], but returns the input text unchanged if it contains invalid escape sequences
/// instead of failing.
pub fn try_unescape(s: &str) -> (r: String)
    ensures
        r@ == match unescape_seq(s@) {
            Ok(o) => o,
            Err(_) => s@,
        },
{
    match unescape(s) {
        Ok(o) => o,
        Err(_) => string_of(chars_of(s).as_slice()),
    }
}

} // verus!

verus! {

// ---------------------------------------------------------------------------------------------
// Escaping
// ---------------------------------------------------------------------------------------------

/// The uppercase hexadecimal digit for `d < 16`.
pub open spec fn upper_hex_digit(d: u32) -> char {
    if d < 10 {
        (d + '0' as u32) as char
    } else {
        (d - 10 + 'A' as u32) as char
    }
}

fn upper_hex_digit_exec(d: u32) -> (c: char)
    requires
        d < 16,
    ensures
        c == upper_hex_digit(d),
{
    let b: u8 = if d < 10 { d as u8 + 48 } else { d as u8 - 10 + 65 };
    let c = b as char;
    assert(c == upper_hex_digit(d)) by {
        assert(b as u32 == if d < 10 { d + '0' as u32 } else { d - 10 + 'A' as u32 });
    }
    c
}

/// Whether `c` is written as a `\uXXXX` sequence when escaped: the control characters without
/// a short escape sequence.
pub open spec fn needs_unicode_escape(c: char) -> bool {
    (c as u32 <= 0x1f || c as u32 == 0x7f) && c != '\u{8}' && c != '\t' && c != '\n'
        && c != '\u{c}' && c != '\r'
}

/// How one character is written inside a quoted string.
pub open spec fn escape_char(c: char) -> Seq<char> {
    if c == '\u{8}' {
        seq!['\\', 'b']
    } else if c == '\t' {
        seq!['\\', 't']
    } else if c == '\n' {
        seq!['\\', 'n']
    } else if c == '\u{c}' {
        seq!['\\', 'f']
    } else if c == '\r' {
        seq!['\\', 'r']
    } else if c == '"' {
        seq!['\\', '"']
    } else if c == '\\' {
        seq!['\\', '\\']
    } else if needs_unicode_escape(c) {
        seq![
            '\\',
            'u',
            '0',
            '0',
            upper_hex_digit(c as u32 / 16),
            upper_hex_digit(c as u32 % 16),
        ]
    } else {
        seq![c]
    }
}

/// The escaped form of `s`: each character replaced by [`escape_char`].
pub open spec fn escape_seq(s: Seq<char>) -> Seq<char>
    decreases s.len(),
{
    if s.len() == 0 {
        seq![]
    } else {
        escape_seq(s.drop_last()) + escape_char(s.last())
    }
}

/// Appends the escaped form of one character to `out`.
pub fn push_escaped_char(out: &mut Vec<char>, c: char)
    ensures
        final(out)@ == old(out)@ + escape_char(c),
{
    let ghost o = out@;
    if c == '\u{8}' {
        out.push('\\');
        out.push('b');
    } else if c == '\t' {
        out.push('\\');
        out.push('t');
    } else if c == '\n' {
        out.push('\\');
        out.push('n');
    } else if c == '\u{c}' {
        out.push('\\');
        out.push('f');
    } else if c == '\r' {
        out.push('\\');
        out.push('r');
    } else if c == '"' {
        out.push('\\');
        out.push('"');
    } else if c == '\\' {
        out.push('\\');
        out.push('\\');
    } else if (c as u32) <= 0x1f || (c as u32) == 0x7f {
        let n = c as u32;
        out.push('\\');
        out.push('u');
        out.push('0');
        out.push('0');
        let hi = upper_hex_digit_exec(n / 16);
        out.push(hi);
        let lo = upper_hex_digit_exec(n % 16);
        out.push(lo);
    } else {
        out.push(c);
    }
    assert(out@ =~= o + escape_char(c));
}

/// Appends the escaped form of `s` to `out`.
pub fn push_escaped(out: &mut Vec<char>, s: &[char])
    ensures
        final(out)@ == old(out)@ + escape_seq(s@),
{
    let ghost o = out@;
    let mut i: usize = 0;
    assert(s@.take(0) =~= seq![]);
    assert(o + seq![] =~= o);
    while i < s.len()
        invariant
            i <= s@.len(),
            out@ == o + escape_seq(s@.take(i as int)),
        decreases s@.len() - i,
    {
        push_escaped_char(out, s[i]);
        assert(s@.take(i + 1).drop_last() =~= s@.take(i as int));
        assert(o + escape_seq(s@.take(i as int)) + escape_char(s@[i as int]) =~= o + escape_seq(
            s@.take(i + 1),
        ));
        i += 1;
    }
    assert(s@.take(s@.len() as int) =~= s@);
}

/// Writes `value` to `buf` with the characters that cannot appear verbatim in a quoted HCL
/// string replaced by escape sequences.
pub fn write_escaped(buf: &mut String, value: &str)
    ensures
        final(buf)@ == old(buf)@ + escape_seq(value@),
{
    let mut out: Vec<char> = Vec::new();
    push_escaped(&mut out, chars_of(value).as_slice());
    let mut i: usize = 0;
    let ghost b = buf@;
    while i < out.len()
        invariant
            i <= out@.len(),
            buf@ == b + out@.take(i as int),
        decreases out@.len() - i,
    {
        push_char(buf, out[i]);
        assert(out@.take(i + 1) =~= out@.take(i as int).push(out@[i as int]));
        i += 1;
    }
    assert(out@.take(out@.len() as int) =~= out@);
}

// ---------------------------------------------------------------------------------------------
// Template markers
// ---------------------------------------------------------------------------------------------

/// Whether `s` contains the start of a template interpolation (`${`) or directive (`%{`) that is
/// not escaped (`$${`, `%%{`) and is followed by at least one more character.
pub open spec fn has_template_marker(s: Seq<char>) -> bool
    decreases s.len(),
{
    if s.len() < 3 {
        false
    } else if (s[0] == '$' && s[1] == '$' && s[2] == '{') || (s[0] == '%' && s[1] == '%' && s[2]
        == '{') {
        has_template_marker(s.skip(2))
    } else if (s[0] == '$' || s[0] == '%') && s[1] == '{' {
        true
    } else {
        has_template_marker(s.drop_first())
    }
}

/// Scans `s` for sequences that introduce a template interpolation or directive. Returns `true`
/// once it finds one of these start markers, `false` otherwise.
///
/// Escaped markers (`$${` and `%%{`) are skipped. Only the start markers are looked for; the
/// template is not checked for validity.
pub fn is_templated(s: &str) -> (r: bool)
    ensures
        r == has_template_marker(s@),
{
    let v = chars_of(s);
    let n = v.len();
    let mut i: usize = 0;
    assert(v@.skip(0) =~= v@);
    while n >= 3 && i <= n - 3
        invariant
            n == v@.len(),
            v@ == s@,
            i <= n,
            has_template_marker(v@) == has_template_marker(v@.skip(i as int)),
        decreases n - i,
    {
        let ghost rest = v@.skip(i as int);
        let a = v[i];
        let b = v[i + 1];
        let c = v[i + 2];
        assert(rest[0] == a && rest[1] == b && rest[2] == c);
        if (a == '$' && b == '$' && c == '{') || (a == '%' && b == '%' && c == '{') {
            assert(rest.skip(2) =~= v@.skip(i + 2));
            i += 2;
        } else if (a == '$' || a == '%') && b == '{' {
            assert(rest.len() >= 3);
            assert(has_template_marker(rest));
            return true;
        } else {
            assert(rest.drop_first() =~= v@.skip(i + 1));
            i += 1;
        }
    }
    false
}

} // verus!

verus! {

// ---------------------------------------------------------------------------------------------
// Identifiers and whitespace
// ---------------------------------------------------------------------------------------------

/// The Unicode `XID_Start` property of a character.
pub uninterp spec fn xid_start(c: char) -> bool;

/// The Unicode `XID_Continue` property of a character.
pub uninterp spec fn xid_continue(c: char) -> bool;

/// The Unicode `White_Space` property of a character: the tab, line feed, vertical tab, form
/// feed and carriage return (U+0009 to U+000D), the space, U+0085, U+00A0, U+1680, U+2000 to
/// U+200A, U+2028, U+2029, U+202F, U+205F and U+3000.
pub open spec fn white_space(c: char) -> bool {
    let n = c as u32;
    ||| 0x9 <= n <= 0xD
    ||| n == 0x20
    ||| n == 0x85
    ||| n == 0xA0
    ||| n == 0x1680
    ||| 0x2000 <= n <= 0x200A
    ||| n == 0x2028
    ||| n == 0x2029
    ||| n == 0x202F
    ||| n == 0x205F
    ||| n == 0x3000
}

/// Whether `c` is an ASCII letter.
pub open spec fn is_ascii_alpha(c: char) -> bool {
    ('a' <= c && c <= 'z') || ('A' <= c && c <= 'Z')
}

/// Whether `c` is an ASCII digit.
pub open spec fn is_ascii_digit(c: char) -> bool {
    '0' <= c && c <= '9'
}

/// `unicode_ident::is_xid_start`: the `XID_Start` property; on ASCII characters exactly the
/// letters (the crate's ASCII table).
#[verifier::external_body]
fn xid_start_exec(c: char) -> (r: bool)
    ensures
        r == xid_start(c),
        (c as u32) < 128 ==> (r <==> is_ascii_alpha(c)),
{
    unicode_ident::is_xid_start(c)
}

/// `unicode_ident::is_xid_continue`: the `XID_Continue` property; on ASCII characters exactly the
/// letters, the digits and `_` (the crate's ASCII table).
#[verifier::external_body]
fn xid_continue_exec(c: char) -> (r: bool)
    ensures
        r == xid_continue(c),
        (c as u32) < 128 ==> (r <==> (is_ascii_alpha(c) || is_ascii_digit(c) || c == '_')),
{
    unicode_ident::is_xid_continue(c)
}

/// Whether the character has the Unicode `White_Space` property, which [`white_space`] lists
/// (what `char::is_whitespace` tells).
fn is_whitespace(c: char) -> (r: bool)
    ensures
        r == white_space(c),
{
    let n = c as u32;
    (0x9 <= n && n <= 0xD) || n == 0x20 || n == 0x85 || n == 0xA0 || n == 0x1680 || (0x2000 <= n
        && n <= 0x200A) || n == 0x2028 || n == 0x2029 || n == 0x202F || n == 0x205F || n == 0x3000
}

/// Whether `c` may start an HCL identifier.
pub open spec fn id_start(c: char) -> bool {
    c == '_' || xid_start(c)
}

/// Whether `c` may continue an HCL identifier.
pub open spec fn id_continue(c: char) -> bool {
    c == '-' || xid_continue(c)
}

/// Whether `s` is a valid HCL identifier: non-empty, a start character followed by continue
/// characters.
pub open spec fn valid_ident(s: Seq<char>) -> bool {
    s.len() > 0 && id_start(s[0]) && forall|i: int| 1 <= i < s.len() ==> id_continue(#[trigger] s[i])
}

/// Whether every character of `s` is ASCII.
pub open spec fn all_ascii(s: Seq<char>) -> bool {
    forall|i: int| 0 <= i < s.len() ==> (#[trigger] s[i] as u32) < 128
}

/// Whether `c` may continue an identifier, among ASCII characters: a letter, a digit, `_` or
/// `-`.
pub open spec fn ascii_id_continue(c: char) -> bool {
    is_ascii_alpha(c) || is_ascii_digit(c) || c == '_' || c == '-'
}

/// Whether the ASCII text `s` is an identifier: a letter or `_`, then letters, digits, `_` and
/// `-`.
pub open spec fn ascii_ident(s: Seq<char>) -> bool {
    &&& s.len() > 0
    &&& (is_ascii_alpha(s[0]) || s[0] == '_')
    &&& forall|i: int| 1 <= i < s.len() ==> ascii_id_continue(#[trigger] s[i])
}

/// Determines if `ch` is a valid HCL identifier start character.
pub fn is_id_start(ch: char) -> (r: bool)
    ensures
        r == id_start(ch),
        (ch as u32) < 128 ==> (r <==> (is_ascii_alpha(ch) || ch == '_')),
{
    ch == '_' || xid_start_exec(ch)
}

/// Determines if `ch` is a valid HCL identifier continue character.
pub fn is_id_continue(ch: char) -> (r: bool)
    ensures
        r == id_continue(ch),
        (ch as u32) < 128 ==> (r <==> ascii_id_continue(ch)),
{
    ch == '-' || xid_continue_exec(ch)
}

/// Determines if the characters `s` form a valid HCL identifier.
pub fn is_ident_chars(s: &[char]) -> (r: bool)
    ensures
        r == valid_ident(s@),
        all_ascii(s@) ==> (r <==> ascii_ident(s@)),
{
    if s.len() == 0 {
        return false;
    }
    if !is_id_start(s[0]) {
        proof {
            if all_ascii(s@) {
                assert((s@[0] as u32) < 128);
            }
        }
        return false;
    }
    proof {
        if all_ascii(s@) {
            assert((s@[0] as u32) < 128);
        }
    }
    let mut i: usize = 1;
    while i < s.len()
        invariant
            1 <= i <= s@.len(),
            id_start(s@[0]),
            all_ascii(s@) ==> (is_ascii_alpha(s@[0]) || s@[0] == '_'),
            forall|k: int| 1 <= k < i ==> id_continue(#[trigger] s@[k]),
            forall|k: int| 1 <= k < i ==> (all_ascii(s@) ==> ascii_id_continue(#[trigger] s@[k])),
        decreases s@.len() - i,
    {
        if !is_id_continue(s[i]) {
            proof {
                if all_ascii(s@) {
                    assert((s@[i as int] as u32) < 128);
                }
            }
            return false;
        }
        proof {
            if all_ascii(s@) {
                assert((s@[i as int] as u32) < 128);
            }
        }
        i += 1;
    }
    true
}

/// Determines if `s` represents a valid HCL identifier.
pub fn is_ident(s: &str) -> (r: bool)
    ensures
        r == valid_ident(s@),
        all_ascii(s@) ==> (r <==> ascii_ident(s@)),
{
    let v = chars_of(s);
    is_ident_chars(v.as_slice())
}

// ---------------------------------------------------------------------------------------------
// Lines
// ---------------------------------------------------------------------------------------------

/// The pieces of `s` between newline characters (the last piece is empty if `s` ends with a
/// newline).
pub open spec fn split_newlines(s: Seq<char>) -> Seq<Seq<char>>
    decreases s.len(),
{
    if s.len() == 0 {
        seq![seq![]]
    } else {
        let r = split_newlines(s.drop_last());
        if s.last() == '\n' {
            r.push(seq![])
        } else {
            r.update(r.len() - 1, r.last().push(s.last()))
        }
    }
}

proof fn lemma_split_newlines_nonempty(s: Seq<char>)
    ensures
        split_newlines(s).len() >= 1,
    decreases s.len(),
{
    if s.len() > 0 {
        lemma_split_newlines_nonempty(s.drop_last());
    }
}

/// A line without a carriage return that preceded its newline.
pub open spec fn strip_cr(l: Seq<char>) -> Seq<char> {
    if l.len() > 0 && l.last() == '\r' {
        l.drop_last()
    } else {
        l
    }
}

/// The lines of `s` as `str::lines` yields them: split at `\n`, a `\r` right before a `\n`
/// removed, and no final empty line.
pub open spec fn text_lines(s: Seq<char>) -> Seq<Seq<char>> {
    let p = split_newlines(s);
    let k = if p.last().len() == 0 {
        p.len() - 1
    } else {
        p.len() as int
    };
    Seq::new(
        k as nat,
        |i: int|
            if i + 1 < p.len() {
                strip_cr(p[i])
            } else {
                p[i]
            },
    )
}

/// Splits `s` into its lines, as [`text_lines`] describes.
pub fn lines_of(s: &[char]) -> (r: Vec<Vec<char>>)
    ensures
        r@.len() == text_lines(s@).len(),
        forall|i: int| 0 <= i < r@.len() ==> (#[trigger] r@[i])@ == text_lines(s@)[i],
{
    let mut parts: Vec<Vec<char>> = Vec::new();
    let mut cur: Vec<char> = Vec::new();
    let mut i: usize = 0;
    assert(s@.take(0) =~= seq![]);
    while i < s.len()
        invariant
            i <= s@.len(),
            split_newlines(s@.take(i as int)).len() == parts@.len() + 1,
            forall|k: int|
                0 <= k < parts@.len() ==> (#[trigger] parts@[k])@ == split_newlines(
                    s@.take(i as int),
                )[k],
            cur@ == split_newlines(s@.take(i as int)).last(),
        decreases s@.len() - i,
    {
        let ghost prev = s@.take(i as int);
        assert(s@.take(i + 1).drop_last() =~= prev);
        let c = s[i];
        if c == '\n' {
            let done = cur;
            parts.push(done);
            cur = Vec::new();
        } else {
            cur.push(c);
        }
        i += 1;
    }
    assert(s@.take(s@.len() as int) =~= s@);
    let ghost p = split_newlines(s@);
    // Drop the final piece if it is empty, strip carriage returns from terminated pieces.
    let mut r: Vec<Vec<char>> = Vec::new();
    let mut j: usize = 0;
    let np = parts.len();
    while j < np
        invariant
            np == parts@.len(),
            j <= np,
            p.len() == np + 1,
            forall|k: int| 0 <= k < np ==> (#[trigger] parts@[k])@ == p[k],
            r@.len() == j,
            forall|k: int| 0 <= k < j ==> (#[trigger] r@[k])@ == strip_cr(p[k]),
        decreases np - j,
    {
        let l = &parts[j];
        let mut line: Vec<char> = Vec::new();
        let m = if l.len() > 0 && l[l.len() - 1] == '\r' { l.len() - 1 } else { l.len() };
        let mut t: usize = 0;
        while t < m
            invariant
                m <= l@.len(),
                t <= m,
                line@ == l@.take(t as int),
            decreases m - t,
        {
            line.push(l[t]);
            assert(l@.take(t + 1) =~= l@.take(t as int).push(l@[t as int]));
            t += 1;
        }
        assert(line@ =~= strip_cr(l@));
        r.push(line);
        j += 1;
    }
    if cur.len() > 0 {
        r.push(cur);
    }
    assert forall|i: int| 0 <= i < r@.len() implies (#[trigger] r@[i])@ == text_lines(s@)[i] by {
        if i < np {
            assert(i + 1 < p.len());
        }
    }
    r
}

} // verus!

verus! {

// ---------------------------------------------------------------------------------------------
// Indentation
// ---------------------------------------------------------------------------------------------

/// The number of whitespace characters at the start of `l`.
pub open spec fn leading_ws(l: Seq<char>) -> nat
    decreases l.len(),
{
    if l.len() > 0 && white_space(l[0]) {
        1 + leading_ws(l.drop_first())
    } else {
        0
    }
}

/// The smallest leading whitespace among the lines that take part in dedenting (non-empty, and
/// not the first one when `skip_first`); `usize::MAX` when there is none.
pub open spec fn min_ws_of_lines(ls: Seq<Seq<char>>, skip_first: bool) -> nat
    decreases ls.len(),
{
    if ls.len() == 0 {
        usize::MAX as nat
    } else {
        let m = min_ws_of_lines(ls.drop_last(), skip_first);
        let l = ls.last();
        if (ls.len() == 1 && skip_first) || l.len() == 0 {
            m
        } else if leading_ws(l) < m {
            leading_ws(l)
        } else {
            m
        }
    }
}

/// The number of leading whitespace units that can be stripped from every non-empty line of
/// `s` (0 for the empty string).
pub open spec fn min_leading_ws(s: Seq<char>, skip_first: bool) -> nat {
    if s.len() == 0 {
        0
    } else {
        min_ws_of_lines(text_lines(s), skip_first)
    }
}

proof fn lemma_min_ws_bounded(ls: Seq<Seq<char>>, skip_first: bool)
    ensures
        min_ws_of_lines(ls, skip_first) <= usize::MAX,
    decreases ls.len(),
{
    if ls.len() > 0 {
        lemma_min_ws_bounded(ls.drop_last(), skip_first);
    }
}

fn leading_ws_count(l: &Vec<char>) -> (r: usize)
    ensures
        r == leading_ws(l@),
{
    let mut i: usize = 0;
    assert(l@.skip(0) =~= l@);
    while i < l.len() && is_whitespace(l[i])
        invariant
            i <= l@.len(),
            leading_ws(l@) == i + leading_ws(l@.skip(i as int)),
        decreases l@.len() - i,
    {
        assert(l@.skip(i as int).drop_first() =~= l@.skip(i + 1));
        i += 1;
    }
    proof { r_eq_leading(l@, i as int); }
    i
}

proof fn r_eq_leading(l: Seq<char>, i: int)
    requires
        0 <= i <= l.len(),
        i == l.len() || !white_space(l[i]),
    ensures
        leading_ws(l.skip(i)) == 0,
{
    assert(l.skip(i).len() == 0 || l.skip(i)[0] == l[i]);
}

/// Finds the minimum number of leading units of whitespace that can be stripped off of each
/// non-empty line of `s` (skipping the first line when `skip_first`). Every whitespace character
/// counts as one unit.
pub fn min_leading_whitespace(s: &str, skip_first: bool) -> (r: usize)
    ensures
        r == min_leading_ws(s@, skip_first),
{
    let v = chars_of(s);
    min_leading_whitespace_chars(&v, skip_first)
}

/// [`min_leading_whitespace`] on a sequence of characters.
pub fn min_leading_whitespace_chars(v: &Vec<char>, skip_first: bool) -> (r: usize)
    ensures
        r == min_leading_ws(v@, skip_first),
{
    if v.len() == 0 {
        return 0;
    }
    let ls = lines_of(v.as_slice());
    let ghost tl = text_lines(v@);
    let mut m: usize = usize::MAX;
    let mut i: usize = 0;
    assert(tl.take(0) =~= seq![]);
    while i < ls.len()
        invariant
            ls@.len() == tl.len(),
            forall|k: int| 0 <= k < ls@.len() ==> (#[trigger] ls@[k])@ == tl[k],
            i <= ls@.len(),
            m == min_ws_of_lines(tl.take(i as int), skip_first),
        decreases ls@.len() - i,
    {
        assert(tl.take(i + 1).drop_last() =~= tl.take(i as int));
        assert(tl.take(i + 1).last() == tl[i as int]);
        if !((i == 0 && skip_first) || ls[i].len() == 0) {
            let w = leading_ws_count(&ls[i]);
            if w < m {
                m = w;
            }
        }
        i += 1;
    }
    assert(tl.take(tl.len() as int) =~= tl);
    m
}

/// The dedented text of the lines `ls`: each line loses `n` leading characters, except the
/// first one when `skip_first` (it is kept as it is), and every line is followed by a newline.
pub open spec fn dedent_lines(ls: Seq<Seq<char>>, n: nat, skip_first: bool) -> Seq<char>
    decreases ls.len(),
{
    if ls.len() == 0 {
        seq![]
    } else {
        let l = ls.last();
        let kept = if ls.len() == 1 && skip_first {
            l
        } else if l.len() == 0 {
            seq![]
        } else if n < l.len() {
            l.skip(n as int)
        } else {
            seq![]
        };
        dedent_lines(ls.drop_last(), n, skip_first) + kept + seq!['\n']
    }
}

/// Whether `s` ends with a newline character.
pub open spec fn ends_with_newline(s: Seq<char>) -> bool {
    s.len() > 0 && s.last() == '\n'
}

/// `s` with `n` characters removed from the start of each line (the first line is left as it is
/// when `skip_first`), lines joined by `\n`, and a final newline only where `s` had one.
pub open spec fn dedent_by_seq(s: Seq<char>, n: nat, skip_first: bool) -> Seq<char> {
    let d = dedent_lines(text_lines(s), n, skip_first);
    if ends_with_newline(d) && !ends_with_newline(s) {
        d.drop_last()
    } else {
        d
    }
}

/// Removes `n` characters from the start of every line of `s`, as [`dedent_by_seq`] describes.
pub fn dedent_by_chars(s: &Vec<char>, n: usize, skip_first: bool) -> (r: Vec<char>)
    ensures
        r@ == dedent_by_seq(s@, n as nat, skip_first),
{
    let ls = lines_of(s.as_slice());
    let ghost tl = text_lines(s@);
    let mut out: Vec<char> = Vec::new();
    let mut i: usize = 0;
    assert(tl.take(0) =~= seq![]);
    while i < ls.len()
        invariant
            ls@.len() == tl.len(),
            forall|k: int| 0 <= k < ls@.len() ==> (#[trigger] ls@[k])@ == tl[k],
            i <= ls@.len(),
            out@ == dedent_lines(tl.take(i as int), n as nat, skip_first),
        decreases ls@.len() - i,
    {
        assert(tl.take(i + 1).drop_last() =~= tl.take(i as int));
        assert(tl.take(i + 1).last() == tl[i as int]);
        let line = &ls[i];
        let ghost before = out@;
        if i == 0 && skip_first {
            push_all(&mut out, line.as_slice());
        } else if line.len() != 0 && n < line.len() {
            let mut t = n;
            while t < line.len()
                invariant
                    n <= t <= line@.len(),
                    out@ == before + line@.subrange(n as int, t as int),
                decreases line@.len() - t,
            {
                out.push(line[t]);
                assert(line@.subrange(n as int, t + 1) =~= line@.subrange(n as int, t as int).push(
                    line@[t as int],
                ));
                t += 1;
            }
            assert(line@.subrange(n as int, line@.len() as int) =~= line@.skip(n as int));
        } else {
            assert(before + seq![] =~= before);
        }
        out.push('\n');
        i += 1;
    }
    assert(tl.take(tl.len() as int) =~= tl);
    if out.len() > 0 && out[out.len() - 1] == '\n' && !(s.len() > 0 && s[s.len() - 1] == '\n') {
        out.pop();
    }
    out
}

/// Removes `n` units of leading whitespace from every line of `s`.
pub fn dedent_by(s: &str, n: usize, skip_first: bool) -> (r: String)
    ensures
        r@ == dedent_by_seq(s@, n as nat, skip_first),
{
    let v = chars_of(s);
    string_of(dedent_by_chars(&v, n, skip_first).as_slice())
}

/// `s` dedented by its minimum leading whitespace (unchanged if that is 0).
pub open spec fn dedent_seq(s: Seq<char>, skip_first: bool) -> Seq<char> {
    let m = min_leading_ws(s, skip_first);
    if m == 0 {
        s
    } else {
        dedent_by_seq(s, m, skip_first)
    }
}

/// Strips the common leading whitespace from the lines of `s`, treating every whitespace
/// character as one unit.
pub fn dedent(s: &str, skip_first: bool) -> (r: String)
    ensures
        r@ == dedent_seq(s@, skip_first),
{
    let v = chars_of(s);
    string_of(dedent_chars(&v, skip_first).as_slice())
}

/// [`dedent`] on a sequence of characters.
pub fn dedent_chars(v: &Vec<char>, skip_first: bool) -> (r: Vec<char>)
    ensures
        r@ == dedent_seq(v@, skip_first),
{
    let m = min_leading_whitespace_chars(v, skip_first);
    if m == 0 {
        let mut c: Vec<char> = Vec::new();
        let mut i: usize = 0;
        while i < v.len()
            invariant
                i <= v@.len(),
                c@ == v@.take(i as int),
            decreases v@.len() - i,
        {
            c.push(v[i]);
            assert(v@.take(i + 1) =~= v@.take(i as int).push(v@[i as int]));
            i += 1;
        }
        assert(v@.take(v@.len() as int) =~= v@);
        c
    } else {
        dedent_by_chars(v, m, skip_first)
    }
}

/// The text that [`indent_by`] makes of the lines `ls`.
pub open spec fn indent_lines(ls: Seq<Seq<char>>, prefix: Seq<char>, skip_first: bool) -> Seq<
    char,
>
    decreases ls.len(),
{
    if ls.len() == 0 {
        seq![]
    } else {
        let l = ls.last();
        let piece = if ls.len() > 1 {
            seq!['\n'] + (if l.len() > 0 {
                prefix
            } else {
                seq![]
            }) + l
        } else {
            (if !skip_first && l.len() > 0 {
                prefix
            } else {
                seq![]
            }) + l
        };
        indent_lines(ls.drop_last(), prefix, skip_first) + piece
    }
}

/// `n` space characters.
pub open spec fn spaces(n: nat) -> Seq<char> {
    Seq::new(n, |i: int| ' ')
}

/// `s` with `n` spaces put in front of every non-empty line (except the first when
/// `skip_first`), lines joined by `\n`, and a final newline where `s` had one.
pub open spec fn indent_by_seq(s: Seq<char>, n: nat, skip_first: bool) -> Seq<char> {
    indent_lines(text_lines(s), spaces(n), skip_first) + if ends_with_newline(s) {
        seq!['\n']
    } else {
        seq![]
    }
}

fn push_all(out: &mut Vec<char>, s: &[char])
    ensures
        final(out)@ == old(out)@ + s@,
{
    let ghost o = out@;
    let mut i: usize = 0;
    while i < s.len()
        invariant
            i <= s@.len(),
            out@ == o + s@.take(i as int),
        decreases s@.len() - i,
    {
        out.push(s[i]);
        assert(o + s@.take(i + 1) =~= o + s@.take(i as int) + seq![s@[i as int]]);
        i += 1;
    }
    assert(s@.take(s@.len() as int) =~= s@);
}

/// Puts `n` spaces in front of every line of `s`, as [`indent_by_seq`] describes.
pub fn indent_by_chars(s: &Vec<char>, n: usize, skip_first: bool) -> (r: Vec<char>)
    ensures
        r@ == indent_by_seq(s@, n as nat, skip_first),
{
    let mut prefix: Vec<char> = Vec::new();
    let mut k: usize = 0;
    while k < n
        invariant
            k <= n,
            prefix@ == spaces(k as nat),
        decreases n - k,
    {
        prefix.push(' ');
        assert(prefix@ =~= spaces((k + 1) as nat));
        k += 1;
    }
    let ls = lines_of(s.as_slice());
    let ghost tl = text_lines(s@);
    let mut out: Vec<char> = Vec::new();
    let mut i: usize = 0;
    assert(tl.take(0) =~= seq![]);
    while i < ls.len()
        invariant
            ls@.len() == tl.len(),
            forall|k: int| 0 <= k < ls@.len() ==> (#[trigger] ls@[k])@ == tl[k],
            i <= ls@.len(),
            prefix@ == spaces(n as nat),
            out@ == indent_lines(tl.take(i as int), spaces(n as nat), skip_first),
        decreases ls@.len() - i,
    {
        assert(tl.take(i + 1).drop_last() =~= tl.take(i as int));
        assert(tl.take(i + 1).last() == tl[i as int]);
        let line = &ls[i];
        let ghost before = out@;
        if i > 0 {
            out.push('\n');
            if line.len() > 0 {
                push_all(&mut out, prefix.as_slice());
            }
        } else if !skip_first && line.len() > 0 {
            push_all(&mut out, prefix.as_slice());
        }
        push_all(&mut out, line.as_slice());
        proof {
            let l = tl[i as int];
            if i > 0 {
                assert(out@ =~= before + (seq!['\n'] + (if l.len() > 0 {
                    spaces(n as nat)
                } else {
                    seq![]
                }) + l));
            } else {
                assert(out@ =~= before + ((if !skip_first && l.len() > 0 {
                    spaces(n as nat)
                } else {
                    seq![]
                }) + l));
            }
        }
        i += 1;
    }
    assert(tl.take(tl.len() as int) =~= tl);
    let ghost body = out@;
    if s.len() > 0 && s[s.len() - 1] == '\n' {
        out.push('\n');
    } else {
        assert(body + seq![] =~= body);
    }
    out
}

/// Puts `n` spaces in front of every non-empty line of `s` (except the first when
/// `skip_first`).
pub fn indent_by(s: &str, n: usize, skip_first: bool) -> (r: String)
    ensures
        r@ == indent_by_seq(s@, n as nat, skip_first),
{
    let v = chars_of(s);
    string_of(indent_by_chars(&v, n, skip_first).as_slice())
}

} // verus!
