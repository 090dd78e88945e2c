//! The lexical layer of the configuration text: blanks between tokens and
//! string literals with their escapes.
//!
//! Every reader is described by a spec function that takes the input still to
//! be read and gives back the value read together with the input that is
//! left, or `None` where the input does not start with such a token.

use vstd::prelude::*;
use crate::text::code_of;

verus! {

/// `char::from_u32` gives the character with the given scalar value, and
/// `None` for a surrogate or a value above `0x10FFFF`.
pub assume_specification[ char::from_u32 ](i: u32) -> (r: Option<char>)
    ensures
        r == (if is_scalar_value(i as int) {
            Some(i as char)
        } else {
            None
        }),
;

/// Whether `v` is the number of a character.
pub open spec fn is_scalar_value(v: int) -> bool {
    0 <= v <= 0xD7FF || 0xE000 <= v <= 0x10FFFF
}

/// Whether `c` may stand between two tokens.
pub open spec fn is_space(c: char) -> bool {
    c == ' ' || c == '\t' || c == '\n' || c == '\r'
}

/// `s` without the blanks it starts with.
pub open spec fn skip_spaces(s: Seq<char>) -> Seq<char>
    decreases s.len(),
{
    if s.len() > 0 && is_space(s[0]) {
        skip_spaces(s.skip(1))
    } else {
        s
    }
}

/// The value of a hexadecimal digit.
pub open spec fn hex_value(c: char) -> Option<int> {
    if '0' <= c <= '9' {
        Some(c as int - '0' as int)
    } else if 'a' <= c <= 'f' {
        Some(c as int - 'a' as int + 10)
    } else if 'A' <= c <= 'F' {
        Some(c as int - 'A' as int + 10)
    } else {
        None
    }
}

/// The lower-case hexadecimal digit of a value below sixteen.
pub open spec fn hex_digit(v: int) -> char {
    if v < 10 {
        ('0' as int + v) as char
    } else {
        ('a' as int + v - 10) as char
    }
}

/// The number that the first four characters of `s` spell in hexadecimal.
pub open spec fn hex4(s: Seq<char>) -> Option<int> {
    if s.len() >= 4 && hex_value(s[0]) is Some && hex_value(s[1]) is Some && hex_value(
        s[2],
    ) is Some && hex_value(s[3]) is Some {
        Some(
            ((hex_value(s[0])->0 * 16 + hex_value(s[1])->0) * 16 + hex_value(s[2])->0) * 16
                + hex_value(s[3])->0,
        )
    } else {
        None
    }
}

/// The character that the two halves of a surrogate pair stand for.
pub open spec fn pair_value(high: int, low: int) -> int {
    0x10000 + (high - 0xD800) * 0x400 + (low - 0xDC00)
}

/// Reads what follows a backslash inside a string literal.
pub open spec fn unescape(s: Seq<char>) -> Option<(char, Seq<char>)> {
    if s.len() == 0 {
        None
    } else if s[0] == '"' || s[0] == '\\' || s[0] == '/' {
        Some((s[0], s.skip(1)))
    } else if s[0] == 'b' {
        Some(('\u{8}', s.skip(1)))
    } else if s[0] == 'f' {
        Some(('\u{c}', s.skip(1)))
    } else if s[0] == 'n' {
        Some(('\n', s.skip(1)))
    } else if s[0] == 'r' {
        Some(('\r', s.skip(1)))
    } else if s[0] == 't' {
        Some(('\t', s.skip(1)))
    } else if s[0] == 'u' {
        match hex4(s.skip(1)) {
            None => None,
            Some(v) => if 0xD800 <= v < 0xDC00 {
                let t = s.skip(5);
                if t.len() >= 2 && t[0] == '\\' && t[1] == 'u' {
                    match hex4(t.skip(2)) {
                        None => None,
                        Some(w) => if 0xDC00 <= w < 0xE000 {
                            Some((pair_value(v, w) as char, t.skip(6)))
                        } else {
                            None
                        },
                    }
                } else {
                    None
                }
            } else if 0xDC00 <= v < 0xE000 {
                None
            } else {
                Some((v as char, s.skip(5)))
            },
        }
    } else {
        None
    }
}

/// Reads the rest of a string literal, after its opening quote: `acc` holds
/// the characters read so far.
pub open spec fn string_tail(s: Seq<char>, acc: Seq<char>) -> Option<(Seq<char>, Seq<char>)>
    decreases s.len(),
{
    if s.len() == 0 {
        None
    } else if s[0] == '"' {
        Some((acc, s.skip(1)))
    } else if s[0] == '\\' {
        match unescape(s.skip(1)) {
            None => None,
            Some((c, rest)) => if rest.len() < s.len() {
                string_tail(rest, acc.push(c))
            } else {
                None
            },
        }
    } else if (s[0] as int) < 0x20 {
        None
    } else {
        string_tail(s.skip(1), acc.push(s[0]))
    }
}

/// Reads a string literal at the start of `s`.
#[verifier::opaque]
pub open spec fn string_literal(s: Seq<char>) -> Option<(Seq<char>, Seq<char>)> {
    if s.len() > 0 && s[0] == '"' {
        string_tail(s.skip(1), Seq::empty())
    } else {
        None
    }
}

/// How one character is written inside a string literal.
pub open spec fn escaped_char(c: char) -> Seq<char> {
    if c == '"' {
        seq!['\\', '"']
    } else if c == '\\' {
        seq!['\\', '\\']
    } else if c == '\n' {
        seq!['\\', 'n']
    } else if c == '\r' {
        seq!['\\', 'r']
    } else if c == '\t' {
        seq!['\\', 't']
    } else if (c as int) < 0x20 {
        seq!['\\', 'u', '0', '0', hex_digit(c as int / 16), hex_digit(c as int % 16)]
    } else {
        seq![c]
    }
}

/// The characters of `t` as they stand between the quotes of a literal.
pub open spec fn escaped(t: Seq<char>) -> Seq<char>
    decreases t.len(),
{
    if t.len() == 0 {
        Seq::empty()
    } else {
        escaped_char(t[0]) + escaped(t.skip(1))
    }
}

/// The string literal that stands for `t`.
pub open spec fn quoted(t: Seq<char>) -> Seq<char> {
    seq!['"'] + escaped(t) + seq!['"']
}

/// Dropping one character from what is left after `i` leaves what is left
/// after `i + 1`.
pub proof fn lemma_skip_next(s: Seq<char>, i: int)
    requires
        0 <= i < s.len(),
    ensures
        s.skip(i).skip(1) == s.skip(i + 1),
        s.skip(i)[0] == s[i],
        s.skip(i).len() == s.len() - i,
{
    assert(s.skip(i).skip(1) =~= s.skip(i + 1));
}

/// Dropping `k` characters from what is left after `i` leaves what is left
/// after `i + k`.
pub proof fn lemma_skip_more(s: Seq<char>, i: int, k: int)
    requires
        0 <= i,
        0 <= k,
        i + k <= s.len(),
    ensures
        s.skip(i).skip(k) == s.skip(i + k),
{
    assert(s.skip(i).skip(k) =~= s.skip(i + k));
}

/// The written characters with one more after them.
pub proof fn lemma_escaped_push(t: Seq<char>, c: char)
    ensures
        escaped(t.push(c)) == escaped(t) + escaped_char(c),
    decreases t.len(),
{
    if t.len() == 0 {
        assert(t.push(c).skip(1) =~= Seq::<char>::empty());
        assert(escaped(t.push(c)) =~= escaped_char(c) + escaped(Seq::<char>::empty()));
        assert(escaped(t.push(c)) =~= escaped(t) + escaped_char(c));
    } else {
        assert(t.push(c).skip(1) =~= t.skip(1).push(c));
        lemma_escaped_push(t.skip(1), c);
        assert(escaped(t.push(c)) =~= escaped(t) + escaped_char(c));
    }
}

/// The digit written for a value below sixteen has that value.
pub proof fn lemma_hex_digit_value(v: int)
    requires
        0 <= v < 16,
    ensures
        hex_value(hex_digit(v)) == Some(v),
{
    assert('0' as int == 48 && '9' as int == 57 && 'a' as int == 97 && 'f' as int == 102);
    if v < 10 {
        assert(hex_digit(v) as int == 48 + v);
    } else {
        assert(hex_digit(v) as int == 97 + v - 10);
    }
}

/// One written character is read back as that character.
pub proof fn lemma_read_escaped_char(c: char, tail: Seq<char>, acc: Seq<char>)
    ensures
        string_tail(escaped_char(c) + tail, acc) == string_tail(tail, acc.push(c)),
{
    let e = escaped_char(c);
    let text = e + tail;
    if c == '"' || c == '\\' || c == '\n' || c == '\r' || c == '\t' {
        assert(text[0] == '\\');
        assert(text.skip(1)[0] == e[1]);
        assert(text.skip(1).skip(1) =~= tail);
    } else if (c as int) < 0x20 {
        let v = c as int;
        assert(text[0] == '\\');
        let u = text.skip(1);
        assert(u[0] == 'u');
        let h = u.skip(1);
        assert(h[0] == '0' && h[1] == '0');
        assert(h[2] == hex_digit(v / 16));
        assert(h[3] == hex_digit(v % 16));
        lemma_hex_digit_value(v / 16);
        lemma_hex_digit_value(v % 16);
        assert(hex_value('0') == Some(0int));
        assert(hex4(h) == Some(v));
        assert(u.skip(5) =~= tail);
        assert(v as char == c);
        assert(unescape(u) == Some((c, tail)));
    } else {
        assert(text[0] == c);
        assert(text.skip(1) =~= tail);
    }
}

/// A string literal is read back as the characters it was written for,
/// whatever follows it.
pub proof fn lemma_string_tail_escaped(t: Seq<char>, acc: Seq<char>, rest: Seq<char>)
    ensures
        string_tail(escaped(t) + seq!['"'] + rest, acc) == Some((acc + t, rest)),
    decreases t.len(),
{
    let text = escaped(t) + seq!['"'] + rest;
    if t.len() == 0 {
        assert(text.skip(1) =~= rest);
        assert(acc + t =~= acc);
    } else {
        let c = t[0];
        let tail = escaped(t.skip(1)) + seq!['"'] + rest;
        assert(text =~= escaped_char(c) + tail);
        assert(acc.push(c) + t.skip(1) =~= acc + t);
        lemma_string_tail_escaped(t.skip(1), acc.push(c), rest);
        lemma_read_escaped_char(c, tail, acc);
    }
}

/// Reading a written literal gives the characters back.
pub proof fn lemma_string_literal_quoted(t: Seq<char>, rest: Seq<char>)
    ensures
        string_literal(quoted(t) + rest) == Some((t, rest)),
{
    reveal(string_literal);
    let text = quoted(t) + rest;
    assert(text.skip(1) =~= escaped(t) + seq!['"'] + rest);
    lemma_string_tail_escaped(t, Seq::empty(), rest);
    assert(Seq::<char>::empty() + t =~= t);
}

/// Whether `c` may stand between two tokens.
pub fn is_space_char(c: char) -> (b: bool)
    ensures
        b == is_space(c),
{
    c == ' ' || c == '\t' || c == '\n' || c == '\r'
}

/// The position of the first character at or after `i` that is no blank.
pub(crate) fn skip_whitespace(s: &Vec<char>, i: usize) -> (j: usize)
    requires
        i <= s.len(),
    ensures
        i <= j <= s.len(),
        s@.skip(j as int) == skip_spaces(s@.skip(i as int)),
{
    let mut j: usize = i;
    while j < s.len() && is_space_char(s[j])
        invariant
            i <= j <= s.len(),
            skip_spaces(s@.skip(j as int)) == skip_spaces(s@.skip(i as int)),
        decreases s.len() - j,
    {
        proof {
            lemma_skip_next(s@, j as int);
        }
        j += 1;
    }
    proof {
        if j < s.len() {
            lemma_skip_next(s@, j as int);
        }
    }
    j
}

/// The value of the hexadecimal digit `c`.
pub fn hex_digit_value(c: char) -> (r: Option<u32>)
    ensures
        match r {
            Some(v) => hex_value(c) == Some(v as int) && v < 16,
            None => hex_value(c) is None,
        },
{
    if c >= '0' && c <= '9' {
        Some(c as u32 - '0' as u32)
    } else if c >= 'a' && c <= 'f' {
        Some(c as u32 - 'a' as u32 + 10)
    } else if c >= 'A' && c <= 'F' {
        Some(c as u32 - 'A' as u32 + 10)
    } else {
        None
    }
}

/// The lower-case hexadecimal digit for `v`.
pub(crate) fn hex_digit_char(v: u32) -> (c: char)
    requires
        v < 16,
    ensures
        c == hex_digit(v as int),
{
    if v == 0 {
        '0'
    } else if v == 1 {
        '1'
    } else if v == 2 {
        '2'
    } else if v == 3 {
        '3'
    } else if v == 4 {
        '4'
    } else if v == 5 {
        '5'
    } else if v == 6 {
        '6'
    } else if v == 7 {
        '7'
    } else if v == 8 {
        '8'
    } else if v == 9 {
        '9'
    } else if v == 10 {
        'a'
    } else if v == 11 {
        'b'
    } else if v == 12 {
        'c'
    } else if v == 13 {
        'd'
    } else if v == 14 {
        'e'
    } else {
        'f'
    }
}

/// The number that the four characters from `i` on spell in hexadecimal.
pub(crate) fn read_hex4(s: &Vec<char>, i: usize) -> (r: Option<u32>)
    requires
        i <= s.len(),
    ensures
        match r {
            Some(v) => hex4(s@.skip(i as int)) == Some(v as int) && v <= 0xFFFF && i + 4
                <= s.len(),
            None => hex4(s@.skip(i as int)) is None,
        },
{
    if s.len() - i < 4 {
        return None;
    }
    let a = hex_digit_value(s[i]);
    let b = hex_digit_value(s[i + 1]);
    let c = hex_digit_value(s[i + 2]);
    let d = hex_digit_value(s[i + 3]);
    match (a, b, c, d) {
        (Some(a), Some(b), Some(c), Some(d)) => Some(((a * 16 + b) * 16 + c) * 16 + d),
        _ => None,
    }
}

/// Reads what follows a backslash that stands just before `i`.
pub(crate) fn read_escape(s: &Vec<char>, i: usize) -> (r: Option<(char, usize)>)
    requires
        i <= s.len(),
    ensures
        match r {
            Some((c, j)) => unescape(s@.skip(i as int)) == Some((c, s@.skip(j as int))) && i < j
                <= s.len(),
            None => unescape(s@.skip(i as int)) is None,
        },
{
    if i >= s.len() {
        return None;
    }
    proof {
        lemma_skip_next(s@, i as int);
    }
    let c = s[i];
    if c == '"' || c == '\\' || c == '/' {
        Some((c, i + 1))
    } else if c == 'b' {
        Some(('\u{8}', i + 1))
    } else if c == 'f' {
        Some(('\u{c}', i + 1))
    } else if c == 'n' {
        Some(('\n', i + 1))
    } else if c == 'r' {
        Some(('\r', i + 1))
    } else if c == 't' {
        Some(('\t', i + 1))
    } else if c == 'u' {
        match read_hex4(s, i + 1) {
            None => None,
            Some(v) => {
                proof {
                    lemma_skip_more(s@, i as int, 5);
                }
                if 0xD800 <= v && v < 0xDC00 {
                    if s.len() - (i + 5) >= 2 && s[i + 5] == '\\' && s[i + 6] == 'u' {
                        proof {
                            lemma_skip_more(s@, i as int + 5, 2);
                        }
                        match read_hex4(s, i + 7) {
                            None => None,
                            Some(w) => {
                                proof {
                                    lemma_skip_more(s@, i as int + 5, 6);
                                }
                                if 0xDC00 <= w && w < 0xE000 {
                                    let n: u32 = 0x10000 + (v - 0xD800) * 0x400 + (w - 0xDC00);
                                    match char::from_u32(n) {
                                        Some(ch) => Some((ch, i + 11)),
                                        None => None,
                                    }
                                } else {
                                    None
                                }
                            },
                        }
                    } else {
                        None
                    }
                } else if 0xDC00 <= v && v < 0xE000 {
                    None
                } else {
                    match char::from_u32(v) {
                        Some(ch) => Some((ch, i + 5)),
                        None => None,
                    }
                }
            },
        }
    } else {
        None
    }
}

/// Reads the string literal that starts at `i`.
pub(crate) fn read_string(s: &Vec<char>, i: usize) -> (r: Option<(String, usize)>)
    requires
        i <= s.len(),
    ensures
        match r {
            Some((t, j)) => string_literal(s@.skip(i as int)) == Some((t@, s@.skip(j as int)))
                && i < j <= s.len(),
            None => string_literal(s@.skip(i as int)) is None,
        },
{
    proof {
        reveal(string_literal);
    }
    if i >= s.len() || s[i] != '"' {
        proof {
            if i < s.len() {
                lemma_skip_next(s@, i as int);
            }
        }
        return None;
    }
    proof {
        lemma_skip_next(s@, i as int);
    }
    let mut out = String::new();
    let mut j: usize = i + 1;
    loop
        invariant
            i < j <= s.len(),
            string_tail(s@.skip(j as int), out@) == string_literal(s@.skip(i as int)),
        decreases s.len() - j,
    {
        if j >= s.len() {
            return None;
        }
        proof {
            lemma_skip_next(s@, j as int);
        }
        let c = s[j];
        if c == '"' {
            return Some((out, j + 1));
        }
        if c == '\\' {
            match read_escape(s, j + 1) {
                None => {
                    return None;
                },
                Some((d, k)) => {
                    out.push(d);
                    j = k;
                },
            }
        } else if code_of(c) < 0x20 {
            return None;
        } else {
            out.push(c);
            j += 1;
        }
    }
}

/// Appends to `out` what stands for `c` inside a string literal.
pub fn write_escaped_char(out: &mut String, c: char)
    ensures
        final(out)@ == old(out)@ + escaped_char(c),
{
    if c == '"' {
        out.push('\\');
        out.push('"');
    } else if c == '\\' {
        out.push('\\');
        out.push('\\');
    } else if c == '\n' {
        out.push('\\');
        out.push('n');
    } else if c == '\r' {
        out.push('\\');
        out.push('r');
    } else if c == '\t' {
        out.push('\\');
        out.push('t');
    } else if (c as u32) < 0x20 {
        let v: u32 = c as u32;
        out.push('\\');
        out.push('u');
        out.push('0');
        out.push('0');
        out.push(hex_digit_char(v / 16));
        out.push(hex_digit_char(v % 16));
    } else {
        out.push(c);
    }
    proof {
        assert(out@ =~= old(out)@ + escaped_char(c));
    }
}

/// Appends to `out` the string literal that stands for `t`.
pub fn write_quoted(out: &mut String, t: &str)
    ensures
        final(out)@ == old(out)@ + quoted(t@),
{
    let ghost start = out@;
    out.push('"');
    for c in it: t.chars()
        invariant
            it.seq() == t@,
            out@ == start + seq!['"'] + escaped(t@.take(it.index() as int)),
    {
        proof {
            lemma_escaped_push(t@.take(it.index() as int), c);
            assert(t@.take(it.index() + 1) =~= t@.take(it.index() as int).push(c));
        }
        write_escaped_char(out, c);
    }
    out.push('"');
    proof {
        assert(t@.take(t@.len() as int) =~= t@);
        assert(out@ =~= start + quoted(t@));
    }
}

} // verus!
