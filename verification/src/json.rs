//! The configuration's JSON form.
//!
//! The shape is one object with the keys `temp_dir`, `secrets_dir`,
//! `exports` and `imports`, in that order; the two directories are strings
//! or null, exports and imports are arrays of objects with their fields in
//! the declared order. Whitespace is allowed between tokens. Strings use
//! the JSON escapes; the encoder escapes quotes, backslashes and control
//! characters, and decoding what the encoder wrote always gives back the
//! value it was given.

use vstd::prelude::*;

verus! {

use crate::parse::digits_val;
use crate::parse::spec_digit_value;
use crate::text::hex_digit;
use crate::text::push_char;
use crate::text::spec_decimal;

/// JSON whitespace.
pub open spec fn is_ws_char(c: char) -> bool {
    c == ' ' || c == '\t' || c == '\n' || c == '\r'
}

/// The first position at or after `pos` that does not hold whitespace.
pub open spec fn spec_skip_ws(text: Seq<char>, pos: int) -> int
    decreases text.len() - pos,
{
    if pos < 0 || pos >= text.len() || !is_ws_char(text[pos]) {
        pos
    } else {
        spec_skip_ws(text, pos + 1)
    }
}

/// Skipping whitespace never moves backwards or past the end.
pub proof fn lemma_skip_ws_bounds(text: Seq<char>, pos: int)
    requires
        0 <= pos <= text.len(),
    ensures
        pos <= spec_skip_ws(text, pos) <= text.len(),
    decreases text.len() - pos,
{
    if pos < text.len() && is_ws_char(text[pos]) {
        lemma_skip_ws_bounds(text, pos + 1);
    }
}

/// Skipped-to positions are fixed points of skipping.
pub proof fn lemma_skip_ws_fix(text: Seq<char>, pos: int)
    requires
        0 <= pos <= text.len(),
    ensures
        spec_skip_ws(text, pos) == text.len() || !is_ws_char(text[spec_skip_ws(text, pos)]),
        spec_skip_ws(text, spec_skip_ws(text, pos)) == spec_skip_ws(text, pos),
    decreases text.len() - pos,
{
    if pos < text.len() && is_ws_char(text[pos]) {
        lemma_skip_ws_fix(text, pos + 1);
    }
}

/// Skips whitespace.
fn skip_ws(text: &str, pos: usize) -> (r: usize)
    requires
        pos <= text@.len(),
    ensures
        r == spec_skip_ws(text@, pos as int),
        pos <= r <= text@.len(),
    decreases text@.len() - pos,
{
    let len = text.unicode_len();
    if pos == len {
        return pos;
    }
    let c = text.get_char(pos);
    if c == ' ' || c == '\t' || c == '\n' || c == '\r' {
        skip_ws(text, pos + 1)
    } else {
        pos
    }
}

/// The value of a hex digit of either case.
pub open spec fn hex_val(c: char) -> Option<u32> {
    if '0' <= c && c <= '9' {
        Some((c as u32 - '0' as u32) as u32)
    } else if 'a' <= c && c <= 'f' {
        Some((10 + (c as u32 - 'a' as u32)) as u32)
    } else if 'A' <= c && c <= 'F' {
        Some((10 + (c as u32 - 'A' as u32)) as u32)
    } else {
        None
    }
}

/// How one character appears inside a JSON string: quotes and backslashes
/// escaped, control characters as `\u00XX`, everything else as itself.
pub open spec fn esc_char(c: char) -> Seq<char> {
    if c == '"' {
        seq!['\\', '"']
    } else if c == '\\' {
        seq!['\\', '\\']
    } else if (c as u32) < 32 {
        seq!['\\', 'u', '0', '0', hex_digit((c as u32) / 16), hex_digit((c as u32) % 16)]
    } else {
        seq![c]
    }
}

/// A whole string escaped.
pub open spec fn spec_escape(s: Seq<char>) -> Seq<char>
    decreases s.len(),
{
    if s.len() == 0 {
        Seq::empty()
    } else {
        spec_escape(s.drop_last()) + esc_char(s.last())
    }
}

/// Escaping works one character at a time from the front as well.
pub proof fn lemma_escape_head(s: Seq<char>)
    requires
        s.len() > 0,
    ensures
        spec_escape(s) == esc_char(s[0]) + spec_escape(s.drop_first()),
    decreases s.len(),
{
    if s.len() == 1 {
        assert(s.drop_last() =~= Seq::<char>::empty());
        assert(s.drop_first() =~= Seq::<char>::empty());
        assert(spec_escape(s) =~= esc_char(s[0]) + spec_escape(s.drop_first()));
    } else {
        let t = s.drop_last();
        lemma_escape_head(t);
        assert(s.drop_first().drop_last() =~= t.drop_first());
        assert(s.drop_first().last() == s.last());
        assert(t[0] == s[0]);
        assert(spec_escape(s) == spec_escape(t) + esc_char(s.last()));
        assert(spec_escape(s.drop_first()) == spec_escape(s.drop_first().drop_last()) + esc_char(
            s.drop_first().last(),
        ));
        assert(spec_escape(s) =~= esc_char(s[0]) + spec_escape(s.drop_first()));
    }
}

/// Appends one escaped character.
fn push_esc_char(out: &mut String, c: char)
    ensures
        final(out)@ == old(out)@ + esc_char(c),
{
    if c == '"' {
        push_char(out, '\\');
        push_char(out, '"');
        proof {
            assert(final(out)@ =~= old(out)@ + esc_char(c));
        }
    } else if c == '\\' {
        push_char(out, '\\');
        push_char(out, '\\');
        proof {
            assert(final(out)@ =~= old(out)@ + esc_char(c));
        }
    } else if (c as u32) < 32 {
        push_char(out, '\\');
        push_char(out, 'u');
        push_char(out, '0');
        push_char(out, '0');
        let v = c as u32;
        let h1 = v / 16;
        let h0 = v % 16;
        let d1 = if h1 < 10 {
            (('0' as u8) + h1 as u8) as char
        } else {
            (('a' as u8) + (h1 - 10) as u8) as char
        };
        let d0 = if h0 < 10 {
            (('0' as u8) + h0 as u8) as char
        } else {
            (('a' as u8) + (h0 - 10) as u8) as char
        };
        push_char(out, d1);
        push_char(out, d0);
        proof {
            assert(final(out)@ =~= old(out)@ + esc_char(c));
        }
    } else {
        push_char(out, c);
        proof {
            assert(final(out)@ =~= old(out)@ + esc_char(c));
        }
    }
}

/// Appends a whole string in its JSON form, quotes included.
fn push_jstring(out: &mut String, s: &str)
    ensures
        final(out)@ == old(out)@ + seq!['"'] + spec_escape(s@) + seq!['"'],
{
    push_char(out, '"');
    let ghost base = out@;
    let len = s.unicode_len();
    let mut i: usize = 0;
    while i < len
        invariant
            i <= len,
            len == s@.len(),
            out@ == base + spec_escape(s@.take(i as int)),
        decreases len - i,
    {
        let c = s.get_char(i);
        push_esc_char(out, c);
        proof {
            assert(s@.take(i + 1).drop_last() =~= s@.take(i as int));
            assert(s@.take(i + 1).last() == s@[i as int]);
            assert(out@ =~= base + spec_escape(s@.take(i + 1)));
        }
        i = i + 1;
    }
    push_char(out, '"');
    proof {
        assert(s@.take(s@.len() as int) =~= s@);
        assert(out@ =~= old(out)@ + seq!['"'] + spec_escape(s@) + seq!['"']);
    }
}

/// One escape code after a backslash: the character it stands for and the
/// position after it. Only `\u00XX` forms below 0x20 are accepted among
/// the numeric escapes.
pub open spec fn spec_escape_code(text: Seq<char>, pos: int) -> Option<(char, int)> {
    if pos < 0 || pos >= text.len() {
        None
    } else {
        let c = text[pos];
        if c == '"' || c == '\\' || c == '/' {
            Some((c, pos + 1))
        } else if c == 'n' {
            Some(('\n', pos + 1))
        } else if c == 'r' {
            Some(('\r', pos + 1))
        } else if c == 't' {
            Some(('\t', pos + 1))
        } else if c == 'b' {
            Some(('\u{0008}', pos + 1))
        } else if c == 'f' {
            Some(('\u{000c}', pos + 1))
        } else if c == 'u' && pos + 5 <= text.len() {
            match (hex_val(text[pos + 1]), hex_val(text[pos + 2]), hex_val(text[pos + 3]), hex_val(
                text[pos + 4],
            )) {
                (Some(a), Some(b), Some(d), Some(e)) => {
                    let v = a * 4096 + b * 256 + d * 16 + e;
                    if v < 32 {
                        Some((((v as u8) as char), pos + 5))
                    } else if v < 0xd800 || v >= 0xe000 {
                        Some((char_of_code(v as u32), pos + 5))
                    } else {
                        None
                    }
                },
                _ => None,
            }
        } else {
            None
        }
    }
}

/// The character of a scalar value.
pub open spec fn char_of_code(v: u32) -> char {
    v as char
}

/// Relies on `char::from_u32`: it returns the character of a scalar value,
/// and nothing for surrogates and values past the largest character.
#[verifier::external_body]
fn char_from_code(v: u32) -> (r: Option<char>)
    ensures
        r matches Some(c) ==> c as u32 == v,
        r is Some <==> (v < 0xd800 || (0xe000 <= v && v < 0x110000)),
{
    char::from_u32(v)
}

/// The body of a JSON string from `pos` to its closing quote: the decoded
/// characters and the position after the quote.
pub open spec fn spec_jstr_body(text: Seq<char>, pos: int) -> Option<(Seq<char>, int)>
    decreases text.len() - pos,
{
    if pos < 0 || pos >= text.len() {
        None
    } else {
        let c = text[pos];
        if c == '"' {
            Some((Seq::empty(), pos + 1))
        } else if c == '\\' {
            match spec_escape_code(text, pos + 1) {
                None => None,
                Some((d, p2)) => {
                    if pos + 1 < p2 <= text.len() {
                        match spec_jstr_body(text, p2) {
                            None => None,
                            Some((s, p3)) => Some((seq![d] + s, p3)),
                        }
                    } else {
                        None
                    }
                },
            }
        } else if (c as u32) < 32 {
            None
        } else {
            match spec_jstr_body(text, pos + 1) {
                None => None,
                Some((s, p2)) => Some((seq![c] + s, p2)),
            }
        }
    }
}

/// A decoded string body ends within the text, after where it began.
pub proof fn lemma_jstr_body_bounds(text: Seq<char>, pos: int)
    requires
        0 <= pos,
        spec_jstr_body(text, pos) is Some,
    ensures
        pos < spec_jstr_body(text, pos)->Some_0.1 <= text.len(),
    decreases text.len() - pos,
{
    let c = text[pos];
    if c == '"' {
    } else if c == '\\' {
        let (d, p2) = spec_escape_code(text, pos + 1)->Some_0;
        lemma_jstr_body_bounds(text, p2);
    } else {
        lemma_jstr_body_bounds(text, pos + 1);
    }
}

/// Decodes a string body.
#[verifier::rlimit(100)]
#[verifier::spinoff_prover]
fn jstr_body(text: &str, pos: usize) -> (r: Option<(String, usize)>)
    requires
        pos <= text@.len(),
    ensures
        match spec_jstr_body(text@, pos as int) {
            Some((s, p)) => r matches Some(v) && v.0@ == s && v.1 == p && pos < p <= text@.len(),
            None => r is None,
        },
    decreases text@.len() - pos,
{
    let len = text.unicode_len();
    if pos >= len {
        return None;
    }
    let c = text.get_char(pos);
    if c == '"' {
        let out = String::new();
        proof {
            assert(out@ =~= Seq::<char>::empty());
        }
        return Some((out, pos + 1));
    }
    if c == '\\' {
        if pos + 1 >= len {
            return None;
        }
        let e = text.get_char(pos + 1);
        let (d, p2): (char, usize) = if e == '"' || e == '\\' || e == '/' {
            (e, pos + 2)
        } else if e == 'n' {
            ('\n', pos + 2)
        } else if e == 'r' {
            ('\r', pos + 2)
        } else if e == 't' {
            ('\t', pos + 2)
        } else if e == 'b' {
            ('\u{0008}', pos + 2)
        } else if e == 'f' {
            ('\u{000c}', pos + 2)
        } else if e == 'u' && len - pos >= 6 {
            let h1 = hex_val_of(text.get_char(pos + 2));
            let h2 = hex_val_of(text.get_char(pos + 3));
            let h3 = hex_val_of(text.get_char(pos + 4));
            let h4 = hex_val_of(text.get_char(pos + 5));
            match (h1, h2, h3, h4) {
                (Some(a), Some(b), Some(d3), Some(e4)) => {
                    let v = a * 4096 + b * 256 + d3 * 16 + e4;
                    if v < 32 {
                        ((v as u8) as char, pos + 6)
                    } else if v < 0xd800 || v >= 0xe000 {
                        match char_from_code(v) {
                            Some(c2) => {
                                proof {
                                    vstd::utf8::char_u32_cast(c2, v);
                                    assert(c2 == char_of_code(v));
                                }
                                (c2, pos + 6)
                            },
                            None => {
                                return None;
                            },
                        }
                    } else {
                        return None;
                    }
                },
                _ => {
                    return None;
                },
            }
        } else {
            return None;
        };
        match jstr_body(text, p2) {
            None => {
                return None;
            },
            Some((rest, p3)) => {
                let mut out = String::new();
                push_char(&mut out, d);
                out.append(rest.as_str());
                proof {
                    assert(out@ =~= seq![d] + rest@);
                }
                return Some((out, p3));
            },
        }
    }
    if (c as u32) < 32 {
        return None;
    }
    match jstr_body(text, pos + 1) {
        None => None,
        Some((rest, p2)) => {
            let mut out = String::new();
            push_char(&mut out, c);
            out.append(rest.as_str());
            proof {
                assert(out@ =~= seq![c] + rest@);
            }
            Some((out, p2))
        },
    }
}

/// Returns the value of a hex digit.
pub(crate) fn hex_val_of(c: char) -> (r: Option<u32>)
    ensures
        r == hex_val(c),
{
    if '0' <= c && c <= '9' {
        Some(c as u32 - '0' as u32)
    } else if 'a' <= c && c <= 'f' {
        Some(10 + (c as u32 - 'a' as u32))
    } else if 'A' <= c && c <= 'F' {
        Some(10 + (c as u32 - 'A' as u32))
    } else {
        None
    }
}

/// The sequence `s` stands in `text` at position `i`.
pub open spec fn text_at(text: Seq<char>, i: int, s: Seq<char>) -> bool {
    0 <= i && i + s.len() <= text.len() && forall|k: int|
        0 <= k < s.len() ==> text[i + k] == #[trigger] s[k]
}

/// Decoding an escaped string body gives back the string it encodes, with
/// the position just after the closing quote.
#[verifier::rlimit(100)]
#[verifier::spinoff_prover]
pub proof fn lemma_jstr_round_trip(text: Seq<char>, pos: int, s: Seq<char>)
    requires
        text_at(text, pos, spec_escape(s) + seq!['"']),
    ensures
        spec_jstr_body(text, pos) == Some((s, pos + spec_escape(s).len() + 1)),
    decreases s.len(),
{
    if s.len() == 0 {
        assert((spec_escape(s) + seq!['"'])[0] == '"');
        assert(text[pos + 0] == (spec_escape(s) + seq!['"'])[0]);
    } else {
        lemma_escape_head(s);
        let c = s[0];
        let e = esc_char(c);
        let rest = s.drop_first();
        let whole = spec_escape(s) + seq!['"'];
        assert(whole =~= e + (spec_escape(rest) + seq!['"']));
        assert(text_at(text, pos + e.len(), spec_escape(rest) + seq!['"'])) by {
            assert(forall|k: int|
                0 <= k < (spec_escape(rest) + seq!['"']).len() ==> #[trigger] (spec_escape(rest)
                    + seq!['"'])[k] == whole[e.len() + k]);
        }
        lemma_jstr_round_trip(text, pos + e.len(), rest);
        if c == '"' {
            assert(whole[0] == '\\' && whole[1] == '"');
            assert(text[pos + 0] == '\\' && text[pos + 1] == '"');
            assert(spec_escape_code(text, pos + 1) == Some((c, pos + 2)));
            assert(seq![c] + rest =~= s);
        } else if c == '\\' {
            assert(whole[0] == '\\' && whole[1] == '\\');
            assert(text[pos + 0] == '\\' && text[pos + 1] == '\\');
            assert(spec_escape_code(text, pos + 1) == Some((c, pos + 2)));
            assert(seq![c] + rest =~= s);
        } else if (c as u32) < 32 {
            assert(whole[0] == '\\' && whole[1] == 'u' && whole[2] == '0' && whole[3] == '0');
            assert(text[pos + 0] == '\\' && text[pos + 1] == 'u' && text[pos + 2] == '0' && text[
                pos + 3
            ] == '0');
            assert(whole[4] == hex_digit((c as u32) / 16) && whole[5] == hex_digit(
                (c as u32) % 16,
            ));
            assert(text[pos + 4] == whole[4] && text[pos + 5] == whole[5]);
            lemma_hex_digit_val((c as u32) / 16);
            lemma_hex_digit_val((c as u32) % 16);
            assert(hex_val(text[pos + 2]) == Some(0u32) && hex_val(text[pos + 3]) == Some(0u32));
            let v = 0 * 4096 + 0 * 256 + ((c as u32) / 16) * 16 + (c as u32) % 16;
            assert(v == c as u32);
            lemma_char_u32_round(c);
            assert(((v as u8) as char) == c);
            assert(spec_escape_code(text, pos + 1) == Some((c, pos + 6)));
            assert(seq![c] + rest =~= s);
        } else {
            assert(whole[0] == c);
            assert(text[pos + 0] == c);
            assert(seq![c] + rest =~= s);
        }
    }
}

/// A hex digit's value is the value it was made from.
proof fn lemma_hex_digit_val(v: u32)
    requires
        v < 16,
    ensures
        hex_val(hex_digit(v)) == Some(v),
{
    if v < 10 {
        assert(hex_digit(v) == ((('0' as u8) + v as u8) as char));
    } else {
        assert(hex_digit(v) == ((('a' as u8) + (v - 10) as u8) as char));
    }
}

proof fn lemma_char_u32_round(c: char)
    requires
        (c as u32) < 32,
    ensures
        (((c as u32) as u8) as char) == c,
{
}


/// The first position at or after `pos` that does not hold a digit.
pub open spec fn spec_digits_end(text: Seq<char>, pos: int) -> int
    decreases text.len() - pos,
{
    if pos < 0 || pos >= text.len() || spec_digit_value(text[pos]) is None {
        pos
    } else {
        spec_digits_end(text, pos + 1)
    }
}

pub proof fn lemma_digits_end_bounds(text: Seq<char>, pos: int)
    requires
        0 <= pos <= text.len(),
    ensures
        pos <= spec_digits_end(text, pos) <= text.len(),
    decreases text.len() - pos,
{
    if pos < text.len() && spec_digit_value(text[pos]) is Some {
        lemma_digits_end_bounds(text, pos + 1);
    }
}

proof fn lemma_digits_end_from(text: Seq<char>, pos: int, k: int)
    requires
        0 <= pos,
        0 <= k,
        pos + k <= text.len(),
        forall|j: int| pos <= j < pos + k ==> spec_digit_value(#[trigger] text[j]) is Some,
        pos + k < text.len() ==> spec_digit_value(text[pos + k]) is None,
    ensures
        spec_digits_end(text, pos) == pos + k,
    decreases k,
{
    if k > 0 {
        assert(spec_digit_value(text[pos]) is Some);
        lemma_digits_end_from(text, pos + 1, k - 1);
    }
}

/// An unsigned JSON number read as a port: leading whitespace skipped, at
/// least one digit, no leading zero, valued at most 65535, ending where
/// the digits end.
pub open spec fn spec_ju16(text: Seq<char>, pos: int) -> Option<(u16, int)> {
    let p = spec_skip_ws(text, pos);
    let e = spec_digits_end(text, p);
    if e == p {
        None
    } else if text[p] == '0' && e > p + 1 {
        None
    } else {
        let v = digits_val(text.subrange(p, e));
        if v <= 0xffff {
            Some((v as u16, e))
        } else {
            None
        }
    }
}

/// Reads a port number.
fn ju16(text: &str, pos: usize) -> (r: Option<(u16, usize)>)
    requires
        pos <= text@.len(),
    ensures
        match spec_ju16(text@, pos as int) {
            Some((v, p)) => r matches Some(q) && q.0 == v && q.1 == p && pos <= p <= text@.len(),
            None => r is None,
        },
{
    let len = text.unicode_len();
    let p = skip_ws(text, pos);
    let (e, val) = scan_number(text, p);
    if e == p {
        return None;
    }
    if text.get_char(p) == '0' && e > p + 1 {
        return None;
    }
    if val <= 0xffff {
        Some((val as u16, e))
    } else {
        None
    }
}

/// Scans the digit run at `p`, returning where it ends and its value,
/// capped just above the largest port.
fn scan_number(text: &str, p: usize) -> (r: (usize, u32))
    requires
        p <= text@.len(),
    ensures
        r.0 == spec_digits_end(text@, p as int),
        p <= r.0 <= text@.len(),
        r.1 == vstd::math::min(digits_val(text@.subrange(p as int, r.0 as int)) as int, 0x10000),
{
    let len = text.unicode_len();
    let mut e: usize = p;
    let mut val: u32 = 0;
    loop
        invariant
            p <= e <= len,
            len == text@.len(),
            forall|j: int| p <= j < e ==> spec_digit_value(#[trigger] text@[j]) is Some,
            val == vstd::math::min(digits_val(text@.subrange(p as int, e as int)) as int, 0x10000)
                as u32,
        decreases len - e,
    {
        if e == len {
            proof {
                lemma_digits_end_from(text@, p as int, e - p);
            }
            return (e, val);
        }
        let c = text.get_char(e);
        if !('0' <= c && c <= '9') {
            proof {
                lemma_digits_end_from(text@, p as int, e - p);
            }
            return (e, val);
        }
        let d = c as u32 - '0' as u32;
        proof {
            assert(text@.subrange(p as int, e + 1).drop_last() =~= text@.subrange(
                p as int,
                e as int,
            ));
            assert(text@.subrange(p as int, e + 1).last() == text@[e as int]);
        }
        let next = val * 10 + d;
        if next > 0x10000 {
            val = 0x10000;
        } else {
            val = next;
        }
        e = e + 1;
    }
}

/// A fixed token after optional whitespace: the position after it.
pub open spec fn spec_jtoken(text: Seq<char>, pos: int, tok: Seq<char>) -> Option<int> {
    let p = spec_skip_ws(text, pos);
    if tok.len() > 0 && text_at(text, p, tok) {
        Some(p + tok.len())
    } else {
        None
    }
}

/// Expects a fixed token after optional whitespace.
fn expect_jtoken(text: &str, pos: usize, tok: &str) -> (r: Option<usize>)
    requires
        pos <= text@.len(),
        tok@.len() > 0,
    ensures
        match spec_jtoken(text@, pos as int, tok@) {
            Some(p) => r matches Some(q) && q == p && pos <= p <= text@.len(),
            None => r is None,
        },
{
    let len = text.unicode_len();
    let tlen = tok.unicode_len();
    let p = skip_ws(text, pos);
    if len - p < tlen {
        proof {
            if text_at(text@, p as int, tok@) {
                assert(false);
            }
        }
        return None;
    }
    let mut j: usize = 0;
    while j < tlen
        invariant
            j <= tlen,
            p + tlen <= len,
            len == text@.len(),
            tlen == tok@.len(),
            pos <= p,
            p == spec_skip_ws(text@, pos as int),
            forall|k: int| 0 <= k < j ==> text@[p + k] == #[trigger] tok@[k],
        decreases tlen - j,
    {
        if text.get_char(p + j) != tok.get_char(j) {
            proof {
                if text_at(text@, p as int, tok@) {
                    assert(text@[p + j] == tok@[j as int]);
                    assert(false);
                }
            }
            return None;
        }
        j = j + 1;
    }
    proof {
        assert(text_at(text@, p as int, tok@));
    }
    Some(p + tlen)
}

/// A string after optional whitespace: its decoded characters and the
/// position after its closing quote.
pub open spec fn spec_jstring(text: Seq<char>, pos: int) -> Option<(Seq<char>, int)> {
    let p = spec_skip_ws(text, pos);
    if 0 <= p < text.len() && text[p] == '"' {
        spec_jstr_body(text, p + 1)
    } else {
        None
    }
}

/// Reads a string.
fn jstring(text: &str, pos: usize) -> (r: Option<(String, usize)>)
    requires
        pos <= text@.len(),
    ensures
        match spec_jstring(text@, pos as int) {
            Some((sv, p)) => r matches Some(q) && q.0@ == sv && q.1 == p && pos <= p
                <= text@.len(),
            None => r is None,
        },
{
    let len = text.unicode_len();
    let p = skip_ws(text, pos);
    if p < len && text.get_char(p) == '"' {
        proof {
            if spec_jstr_body(text@, p + 1) is Some {
                lemma_jstr_body_bounds(text@, p + 1);
            }
        }
        jstr_body(text, p + 1)
    } else {
        None
    }
}

/// A string or the literal `null`, after optional whitespace.
pub open spec fn spec_jnull_or_string(text: Seq<char>, pos: int) -> Option<(
    Option<Seq<char>>,
    int,
)> {
    let p = spec_skip_ws(text, pos);
    if 0 <= p < text.len() && text[p] == '"' {
        match spec_jstr_body(text, p + 1) {
            Some((sv, p2)) => Some((Some(sv), p2)),
            None => None,
        }
    } else if text_at(text, p, "null"@) {
        Some((None, p + 4))
    } else {
        None
    }
}

/// Reads a string or `null`.
fn jnull_or_string(text: &str, pos: usize) -> (r: Option<(Option<String>, usize)>)
    requires
        pos <= text@.len(),
    ensures
        match spec_jnull_or_string(text@, pos as int) {
            Some((sv, p)) => r matches Some(q) && q.1 == p && pos <= p <= text@.len() && (match sv {
                Some(inner) => q.0 matches Some(out) && out@ == inner,
                None => q.0 is None,
            }),
            None => r is None,
        },
{
    let len = text.unicode_len();
    let p = skip_ws(text, pos);
    if p < len && text.get_char(p) == '"' {
        proof {
            if spec_jstr_body(text@, p + 1) is Some {
                lemma_jstr_body_bounds(text@, p + 1);
            }
        }
        match jstr_body(text, p + 1) {
            Some((sv, p2)) => Some((Some(sv), p2)),
            None => None,
        }
    } else {
        proof {
            reveal_strlit("null");
            lemma_skip_ws_fix(text@, pos as int);
            assert(spec_skip_ws(text@, p as int) == p as int);
        }
        match expect_jtoken(text, p, "null") {
            Some(p2) => Some((None, p2)),
            None => None,
        }
    }
}


pub proof fn lemma_jtoken_bounds(text: Seq<char>, pos: int, tok: Seq<char>)
    requires
        0 <= pos <= text.len(),
        spec_jtoken(text, pos, tok) is Some,
    ensures
        pos < spec_jtoken(text, pos, tok)->Some_0 <= text.len(),
{
    lemma_skip_ws_bounds(text, pos);
}

pub proof fn lemma_ju16_bounds(text: Seq<char>, pos: int)
    requires
        0 <= pos <= text.len(),
        spec_ju16(text, pos) is Some,
    ensures
        pos < spec_ju16(text, pos)->Some_0.1 <= text.len(),
{
    lemma_skip_ws_bounds(text, pos);
    let p = spec_skip_ws(text, pos);
    lemma_digits_end_bounds(text, p);
}

pub proof fn lemma_jstring_bounds(text: Seq<char>, pos: int)
    requires
        0 <= pos <= text.len(),
        spec_jstring(text, pos) is Some,
    ensures
        pos < spec_jstring(text, pos)->Some_0.1 <= text.len(),
{
    lemma_skip_ws_bounds(text, pos);
    let p = spec_skip_ws(text, pos);
    lemma_jstr_body_bounds(text, p + 1);
}

pub proof fn lemma_jnull_or_string_bounds(text: Seq<char>, pos: int)
    requires
        0 <= pos <= text.len(),
        spec_jnull_or_string(text, pos) is Some,
    ensures
        pos < spec_jnull_or_string(text, pos)->Some_0.1 <= text.len(),
{
    lemma_skip_ws_bounds(text, pos);
    let p = spec_skip_ws(text, pos);
    if 0 <= p < text.len() && text[p] == '"' {
        lemma_jstr_body_bounds(text, p + 1);
    } else {
        reveal_strlit("null");
    }
}

/// The remaining elements of a port array after `pos`: either a closing
/// bracket, or commas each followed by one number.
pub open spec fn spec_jports_rest(text: Seq<char>, pos: int, acc: Seq<u16>) -> Option<
    (Seq<u16>, int),
>
    decreases text.len() - pos,
    via spec_jports_rest_dec
{
    if pos < 0 || pos > text.len() {
        None
    } else {
        let q = spec_skip_ws(text, pos);
        if q >= text.len() {
            None
        } else if text[q] == ']' {
            Some((acc, q + 1))
        } else if text[q] == ',' {
            match spec_ju16(text, q + 1) {
                None => None,
                Some((v, p2)) => spec_jports_rest(text, p2, acc.push(v)),
            }
        } else {
            None
        }
    }
}

#[via_fn]
proof fn spec_jports_rest_dec(text: Seq<char>, pos: int, acc: Seq<u16>) {
    if 0 <= pos <= text.len() {
        lemma_skip_ws_bounds(text, pos);
        let q = spec_skip_ws(text, pos);
        if q < text.len() && text[q] == ',' && spec_ju16(text, q + 1) is Some {
            lemma_ju16_bounds(text, q + 1);
        }
    }
}

pub proof fn lemma_jports_rest_bounds(text: Seq<char>, pos: int, acc: Seq<u16>)
    requires
        0 <= pos <= text.len(),
        spec_jports_rest(text, pos, acc) is Some,
    ensures
        pos < spec_jports_rest(text, pos, acc)->Some_0.1 <= text.len(),
    decreases text.len() - pos,
{
    lemma_skip_ws_bounds(text, pos);
    let q = spec_skip_ws(text, pos);
    if text[q] == ']' {
    } else {
        let (v, p2) = spec_ju16(text, q + 1)->Some_0;
        lemma_ju16_bounds(text, q + 1);
        lemma_jports_rest_bounds(text, p2, acc.push(v));
    }
}

/// A JSON array of ports.
pub open spec fn spec_jports(text: Seq<char>, pos: int) -> Option<(Seq<u16>, int)> {
    match spec_jtoken(text, pos, "["@) {
        None => None,
        Some(p1) => {
            let q = spec_skip_ws(text, p1);
            if 0 <= q < text.len() && text[q] == ']' {
                Some((Seq::empty(), q + 1))
            } else {
                match spec_ju16(text, p1) {
                    None => None,
                    Some((v, p2)) => spec_jports_rest(text, p2, seq![v]),
                }
            }
        },
    }
}

pub proof fn lemma_jports_bounds(text: Seq<char>, pos: int)
    requires
        0 <= pos <= text.len(),
        spec_jports(text, pos) is Some,
    ensures
        pos < spec_jports(text, pos)->Some_0.1 <= text.len(),
{
    let p1 = spec_jtoken(text, pos, "["@)->Some_0;
    lemma_jtoken_bounds(text, pos, "["@);
    lemma_skip_ws_bounds(text, p1);
    let q = spec_skip_ws(text, p1);
    if 0 <= q < text.len() && text[q] == ']' {
    } else {
        let (v, p2) = spec_ju16(text, p1)->Some_0;
        lemma_ju16_bounds(text, p1);
        lemma_jports_rest_bounds(text, p2, seq![v]);
    }
}

/// Reads a port array.
fn jports(text: &str, pos: usize) -> (r: Option<(Vec<u16>, usize)>)
    requires
        pos <= text@.len(),
    ensures
        match spec_jports(text@, pos as int) {
            Some((ps, p)) => r matches Some(q) && q.0@ == ps && q.1 == p && pos <= p
                <= text@.len(),
            None => r is None,
        },
{
    proof {
        reveal_strlit("[");
    }
    let len = text.unicode_len();
    let p1 = match expect_jtoken(text, pos, "[") {
        Some(p) => p,
        None => {
            return None;
        },
    };
    let q = skip_ws(text, p1);
    if q < len && text.get_char(q) == ']' {
        let out: Vec<u16> = Vec::new();
        proof {
            assert(out@ =~= Seq::<u16>::empty());
        }
        return Some((out, q + 1));
    }
    let (v, p2) = match ju16(text, p1) {
        Some(x) => x,
        None => {
            return None;
        },
    };
    let mut acc: Vec<u16> = Vec::new();
    acc.push(v);
    let mut cur = p2;
    proof {
        assert(acc@ =~= seq![v]);
    }
    loop
        invariant
            pos <= cur <= text@.len(),
            spec_jports(text@, pos as int) == spec_jports_rest(text@, cur as int, acc@),
        decreases text@.len() - cur,
    {
        let len2 = text.unicode_len();
        let q2 = skip_ws(text, cur);
        if q2 >= len2 {
            return None;
        }
        let c = text.get_char(q2);
        if c == ']' {
            return Some((acc, q2 + 1));
        }
        if c != ',' {
            return None;
        }
        match ju16(text, q2 + 1) {
            None => {
                return None;
            },
            Some((w, p3)) => {
                proof {
                    lemma_ju16_bounds(text@, q2 + 1);
                }
                acc.push(w);
                cur = p3;
            },
        }
    }
}

/// One export object: `local_addr`, `service_name`, `remote_ports`, in
/// that order.
pub open spec fn spec_jexport(text: Seq<char>, pos: int) -> Option<(crate::config::ExportView, int)> {
    match spec_jtoken(text, pos, "{"@) {
        None => None,
        Some(p1) => match spec_jtoken(text, p1, "\"local_addr\""@) {
            None => None,
            Some(p2) => match spec_jtoken(text, p2, ":"@) {
                None => None,
                Some(p3) => match spec_jstring(text, p3) {
                    None => None,
                    Some((la, p4)) => match spec_jtoken(text, p4, ","@) {
                        None => None,
                        Some(p5) => match spec_jtoken(text, p5, "\"service_name\""@) {
                            None => None,
                            Some(p6) => match spec_jtoken(text, p6, ":"@) {
                                None => None,
                                Some(p7) => match spec_jnull_or_string(text, p7) {
                                    None => None,
                                    Some((sn, p8)) => match spec_jtoken(text, p8, ","@) {
                                        None => None,
                                        Some(p9) => match spec_jtoken(
                                            text,
                                            p9,
                                            "\"remote_ports\""@,
                                        ) {
                                            None => None,
                                            Some(p10) => match spec_jtoken(text, p10, ":"@) {
                                                None => None,
                                                Some(p11) => match spec_jports(text, p11) {
                                                    None => None,
                                                    Some((ps, p12)) => match spec_jtoken(
                                                        text,
                                                        p12,
                                                        "}"@,
                                                    ) {
                                                        None => None,
                                                        Some(p13) => Some(
                                                            (
                                                                crate::config::ExportView {
                                                                    local_addr: la,
                                                                    service_name: sn,
                                                                    remote_ports: ps,
                                                                },
                                                                p13,
                                                            ),
                                                        ),
                                                    },
                                                },
                                            },
                                        },
                                    },
                                },
                            },
                        },
                    },
                },
            },
        },
    }
}

/// Reads one export object.
fn jexport(text: &str, pos: usize) -> (r: Option<(crate::config::Export, usize)>)
    requires
        pos <= text@.len(),
    ensures
        match spec_jexport(text@, pos as int) {
            Some((ev, p)) => r matches Some(q) && q.0@ == ev && q.1 == p && pos <= p
                <= text@.len(),
            None => r is None,
        },
{
    proof {
        reveal_strlit("{");
        reveal_strlit("}");
        reveal_strlit(":");
        reveal_strlit(",");
        reveal_strlit("\"local_addr\"");
        reveal_strlit("\"service_name\"");
        reveal_strlit("\"remote_ports\"");
    }
    let p1 = match expect_jtoken(text, pos, "{") {
        Some(p) => p,
        None => {
            return None;
        },
    };
    let p2 = match expect_jtoken(text, p1, "\"local_addr\"") {
        Some(p) => p,
        None => {
            return None;
        },
    };
    let p3 = match expect_jtoken(text, p2, ":") {
        Some(p) => p,
        None => {
            return None;
        },
    };
    let (la, p4) = match jstring(text, p3) {
        Some(x) => x,
        None => {
            return None;
        },
    };
    let p5 = match expect_jtoken(text, p4, ",") {
        Some(p) => p,
        None => {
            return None;
        },
    };
    let p6 = match expect_jtoken(text, p5, "\"service_name\"") {
        Some(p) => p,
        None => {
            return None;
        },
    };
    let p7 = match expect_jtoken(text, p6, ":") {
        Some(p) => p,
        None => {
            return None;
        },
    };
    let (sn, p8) = match jnull_or_string(text, p7) {
        Some(x) => x,
        None => {
            return None;
        },
    };
    let p9 = match expect_jtoken(text, p8, ",") {
        Some(p) => p,
        None => {
            return None;
        },
    };
    let p10 = match expect_jtoken(text, p9, "\"remote_ports\"") {
        Some(p) => p,
        None => {
            return None;
        },
    };
    let p11 = match expect_jtoken(text, p10, ":") {
        Some(p) => p,
        None => {
            return None;
        },
    };
    let (ps, p12) = match jports(text, p11) {
        Some(x) => x,
        None => {
            return None;
        },
    };
    let p13 = match expect_jtoken(text, p12, "}") {
        Some(p) => p,
        None => {
            return None;
        },
    };
    Some((crate::config::Export { local_addr: la, service_name: sn, remote_ports: ps }, p13))
}

/// One import object: `remote_addr` then `local_addr`.
pub open spec fn spec_jimport(text: Seq<char>, pos: int) -> Option<(crate::config::ImportView, int)> {
    match spec_jtoken(text, pos, "{"@) {
        None => None,
        Some(p1) => match spec_jtoken(text, p1, "\"remote_addr\""@) {
            None => None,
            Some(p2) => match spec_jtoken(text, p2, ":"@) {
                None => None,
                Some(p3) => match spec_jstring(text, p3) {
                    None => None,
                    Some((ra, p4)) => match spec_jtoken(text, p4, ","@) {
                        None => None,
                        Some(p5) => match spec_jtoken(text, p5, "\"local_addr\""@) {
                            None => None,
                            Some(p6) => match spec_jtoken(text, p6, ":"@) {
                                None => None,
                                Some(p7) => match spec_jstring(text, p7) {
                                    None => None,
                                    Some((la, p8)) => match spec_jtoken(text, p8, "}"@) {
                                        None => None,
                                        Some(p9) => Some(
                                            (
                                                crate::config::ImportView {
                                                    remote_addr: ra,
                                                    local_addr: la,
                                                },
                                                p9,
                                            ),
                                        ),
                                    },
                                },
                            },
                        },
                    },
                },
            },
        },
    }
}

/// Reads one import object.
fn jimport(text: &str, pos: usize) -> (r: Option<(crate::config::Import, usize)>)
    requires
        pos <= text@.len(),
    ensures
        match spec_jimport(text@, pos as int) {
            Some((iv, p)) => r matches Some(q) && q.0@ == iv && q.1 == p && pos <= p
                <= text@.len(),
            None => r is None,
        },
{
    proof {
        reveal_strlit("{");
        reveal_strlit("}");
        reveal_strlit(":");
        reveal_strlit(",");
        reveal_strlit("\"remote_addr\"");
        reveal_strlit("\"local_addr\"");
    }
    let p1 = match expect_jtoken(text, pos, "{") {
        Some(p) => p,
        None => {
            return None;
        },
    };
    let p2 = match expect_jtoken(text, p1, "\"remote_addr\"") {
        Some(p) => p,
        None => {
            return None;
        },
    };
    let p3 = match expect_jtoken(text, p2, ":") {
        Some(p) => p,
        None => {
            return None;
        },
    };
    let (ra, p4) = match jstring(text, p3) {
        Some(x) => x,
        None => {
            return None;
        },
    };
    let p5 = match expect_jtoken(text, p4, ",") {
        Some(p) => p,
        None => {
            return None;
        },
    };
    let p6 = match expect_jtoken(text, p5, "\"local_addr\"") {
        Some(p) => p,
        None => {
            return None;
        },
    };
    let p7 = match expect_jtoken(text, p6, ":") {
        Some(p) => p,
        None => {
            return None;
        },
    };
    let (la, p8) = match jstring(text, p7) {
        Some(x) => x,
        None => {
            return None;
        },
    };
    let p9 = match expect_jtoken(text, p8, "}") {
        Some(p) => p,
        None => {
            return None;
        },
    };
    Some((crate::config::Import { remote_addr: ra, local_addr: la }, p9))
}


pub proof fn lemma_jexport_bounds(text: Seq<char>, pos: int)
    requires
        0 <= pos <= text.len(),
        spec_jexport(text, pos) is Some,
    ensures
        pos < spec_jexport(text, pos)->Some_0.1 <= text.len(),
{
    let p1 = spec_jtoken(text, pos, "{"@)->Some_0;
    lemma_jtoken_bounds(text, pos, "{"@);
    let p2 = spec_jtoken(text, p1, "\"local_addr\""@)->Some_0;
    lemma_jtoken_bounds(text, p1, "\"local_addr\""@);
    let p3 = spec_jtoken(text, p2, ":"@)->Some_0;
    lemma_jtoken_bounds(text, p2, ":"@);
    let p4 = spec_jstring(text, p3)->Some_0.1;
    lemma_jstring_bounds(text, p3);
    let p5 = spec_jtoken(text, p4, ","@)->Some_0;
    lemma_jtoken_bounds(text, p4, ","@);
    let p6 = spec_jtoken(text, p5, "\"service_name\""@)->Some_0;
    lemma_jtoken_bounds(text, p5, "\"service_name\""@);
    let p7 = spec_jtoken(text, p6, ":"@)->Some_0;
    lemma_jtoken_bounds(text, p6, ":"@);
    let p8 = spec_jnull_or_string(text, p7)->Some_0.1;
    lemma_jnull_or_string_bounds(text, p7);
    let p9 = spec_jtoken(text, p8, ","@)->Some_0;
    lemma_jtoken_bounds(text, p8, ","@);
    let p10 = spec_jtoken(text, p9, "\"remote_ports\""@)->Some_0;
    lemma_jtoken_bounds(text, p9, "\"remote_ports\""@);
    let p11 = spec_jtoken(text, p10, ":"@)->Some_0;
    lemma_jtoken_bounds(text, p10, ":"@);
    let p12 = spec_jports(text, p11)->Some_0.1;
    lemma_jports_bounds(text, p11);
    lemma_jtoken_bounds(text, p12, "}"@);
}

pub proof fn lemma_jimport_bounds(text: Seq<char>, pos: int)
    requires
        0 <= pos <= text.len(),
        spec_jimport(text, pos) is Some,
    ensures
        pos < spec_jimport(text, pos)->Some_0.1 <= text.len(),
{
    let p1 = spec_jtoken(text, pos, "{"@)->Some_0;
    lemma_jtoken_bounds(text, pos, "{"@);
    let p2 = spec_jtoken(text, p1, "\"remote_addr\""@)->Some_0;
    lemma_jtoken_bounds(text, p1, "\"remote_addr\""@);
    let p3 = spec_jtoken(text, p2, ":"@)->Some_0;
    lemma_jtoken_bounds(text, p2, ":"@);
    let p4 = spec_jstring(text, p3)->Some_0.1;
    lemma_jstring_bounds(text, p3);
    let p5 = spec_jtoken(text, p4, ","@)->Some_0;
    lemma_jtoken_bounds(text, p4, ","@);
    let p6 = spec_jtoken(text, p5, "\"local_addr\""@)->Some_0;
    lemma_jtoken_bounds(text, p5, "\"local_addr\""@);
    let p7 = spec_jtoken(text, p6, ":"@)->Some_0;
    lemma_jtoken_bounds(text, p6, ":"@);
    let p8 = spec_jstring(text, p7)->Some_0.1;
    lemma_jstring_bounds(text, p7);
    lemma_jtoken_bounds(text, p8, "}"@);
}

/// The remaining elements of an export array after `pos`.
pub open spec fn spec_jexports_rest(
    text: Seq<char>,
    pos: int,
    acc: Seq<crate::config::ExportView>,
) -> Option<(Seq<crate::config::ExportView>, int)>
    decreases text.len() - pos,
    via spec_jexports_rest_dec
{
    if pos < 0 || pos > text.len() {
        None
    } else {
        let q = spec_skip_ws(text, pos);
        if q >= text.len() {
            None
        } else if text[q] == ']' {
            Some((acc, q + 1))
        } else if text[q] == ',' {
            match spec_jexport(text, q + 1) {
                None => None,
                Some((e, p2)) => spec_jexports_rest(text, p2, acc.push(e)),
            }
        } else {
            None
        }
    }
}

#[via_fn]
proof fn spec_jexports_rest_dec(text: Seq<char>, pos: int, acc: Seq<crate::config::ExportView>) {
    if 0 <= pos <= text.len() {
        lemma_skip_ws_bounds(text, pos);
        let q = spec_skip_ws(text, pos);
        if q < text.len() && text[q] == ',' && spec_jexport(text, q + 1) is Some {
            lemma_jexport_bounds(text, q + 1);
        }
    }
}

/// A JSON array of export objects.
pub open spec fn spec_jexports(text: Seq<char>, pos: int) -> Option<
    (Seq<crate::config::ExportView>, int),
> {
    match spec_jtoken(text, pos, "["@) {
        None => None,
        Some(p1) => {
            let q = spec_skip_ws(text, p1);
            if 0 <= q < text.len() && text[q] == ']' {
                Some((Seq::empty(), q + 1))
            } else {
                match spec_jexport(text, p1) {
                    None => None,
                    Some((e, p2)) => spec_jexports_rest(text, p2, seq![e]),
                }
            }
        },
    }
}

pub proof fn lemma_jexports_rest_bounds(
    text: Seq<char>,
    pos: int,
    acc: Seq<crate::config::ExportView>,
)
    requires
        0 <= pos <= text.len(),
        spec_jexports_rest(text, pos, acc) is Some,
    ensures
        pos < spec_jexports_rest(text, pos, acc)->Some_0.1 <= text.len(),
    decreases text.len() - pos,
{
    lemma_skip_ws_bounds(text, pos);
    let q = spec_skip_ws(text, pos);
    if text[q] == ']' {
    } else {
        let (e, p2) = spec_jexport(text, q + 1)->Some_0;
        lemma_jexport_bounds(text, q + 1);
        lemma_jexports_rest_bounds(text, p2, acc.push(e));
    }
}

pub proof fn lemma_jexports_bounds(text: Seq<char>, pos: int)
    requires
        0 <= pos <= text.len(),
        spec_jexports(text, pos) is Some,
    ensures
        pos < spec_jexports(text, pos)->Some_0.1 <= text.len(),
{
    let p1 = spec_jtoken(text, pos, "["@)->Some_0;
    lemma_jtoken_bounds(text, pos, "["@);
    lemma_skip_ws_bounds(text, p1);
    let q = spec_skip_ws(text, p1);
    if 0 <= q < text.len() && text[q] == ']' {
    } else {
        let (e, p2) = spec_jexport(text, p1)->Some_0;
        lemma_jexport_bounds(text, p1);
        lemma_jexports_rest_bounds(text, p2, seq![e]);
    }
}

/// The decoded exports agree with the spec exports, element by element.
pub open spec fn exports_match(
    ls: Seq<crate::config::Export>,
    gs: Seq<crate::config::ExportView>,
) -> bool {
    ls.len() == gs.len() && forall|k: int| 0 <= k < gs.len() ==> (#[trigger] ls[k])@ == gs[k]
}

/// Reads an export array.
fn jexports(text: &str, pos: usize) -> (r: Option<(Vec<crate::config::Export>, usize)>)
    requires
        pos <= text@.len(),
    ensures
        match spec_jexports(text@, pos as int) {
            Some((es, p)) => r matches Some(q) && exports_match(q.0@, es) && q.1 == p && pos <= p
                <= text@.len(),
            None => r is None,
        },
{
    proof {
        reveal_strlit("[");
    }
    let len = text.unicode_len();
    let p1 = match expect_jtoken(text, pos, "[") {
        Some(p) => p,
        None => {
            return None;
        },
    };
    let q = skip_ws(text, p1);
    if q < len && text.get_char(q) == ']' {
        let out: Vec<crate::config::Export> = Vec::new();
        proof {
            assert(exports_match(out@, Seq::empty()));
        }
        return Some((out, q + 1));
    }
    let (e0, p2) = match jexport(text, p1) {
        Some(x) => x,
        None => {
            return None;
        },
    };
    let mut acc: Vec<crate::config::Export> = Vec::new();
    let ghost mut gacc: Seq<crate::config::ExportView> = seq![e0@];
    acc.push(e0);
    let mut cur = p2;
    proof {
        assert(exports_match(acc@, gacc));
    }
    loop
        invariant
            pos <= cur <= text@.len(),
            spec_jexports(text@, pos as int) == spec_jexports_rest(text@, cur as int, gacc),
            exports_match(acc@, gacc),
        decreases text@.len() - cur,
    {
        let len2 = text.unicode_len();
        let q2 = skip_ws(text, cur);
        if q2 >= len2 {
            return None;
        }
        let c = text.get_char(q2);
        if c == ']' {
            return Some((acc, q2 + 1));
        }
        if c != ',' {
            return None;
        }
        match jexport(text, q2 + 1) {
            None => {
                return None;
            },
            Some((e, p3)) => {
                proof {
                    lemma_jexport_bounds(text@, q2 + 1);
                    gacc = gacc.push(e@);
                }
                acc.push(e);
                proof {
                    assert(exports_match(acc@, gacc));
                }
                cur = p3;
            },
        }
    }
}

/// The remaining elements of an import array after `pos`.
pub open spec fn spec_jimports_rest(
    text: Seq<char>,
    pos: int,
    acc: Seq<crate::config::ImportView>,
) -> Option<(Seq<crate::config::ImportView>, int)>
    decreases text.len() - pos,
    via spec_jimports_rest_dec
{
    if pos < 0 || pos > text.len() {
        None
    } else {
        let q = spec_skip_ws(text, pos);
        if q >= text.len() {
            None
        } else if text[q] == ']' {
            Some((acc, q + 1))
        } else if text[q] == ',' {
            match spec_jimport(text, q + 1) {
                None => None,
                Some((e, p2)) => spec_jimports_rest(text, p2, acc.push(e)),
            }
        } else {
            None
        }
    }
}

#[via_fn]
proof fn spec_jimports_rest_dec(text: Seq<char>, pos: int, acc: Seq<crate::config::ImportView>) {
    if 0 <= pos <= text.len() {
        lemma_skip_ws_bounds(text, pos);
        let q = spec_skip_ws(text, pos);
        if q < text.len() && text[q] == ',' && spec_jimport(text, q + 1) is Some {
            lemma_jimport_bounds(text, q + 1);
        }
    }
}

/// A JSON array of import objects.
pub open spec fn spec_jimports(text: Seq<char>, pos: int) -> Option<
    (Seq<crate::config::ImportView>, int),
> {
    match spec_jtoken(text, pos, "["@) {
        None => None,
        Some(p1) => {
            let q = spec_skip_ws(text, p1);
            if 0 <= q < text.len() && text[q] == ']' {
                Some((Seq::empty(), q + 1))
            } else {
                match spec_jimport(text, p1) {
                    None => None,
                    Some((e, p2)) => spec_jimports_rest(text, p2, seq![e]),
                }
            }
        },
    }
}

pub proof fn lemma_jimports_rest_bounds(
    text: Seq<char>,
    pos: int,
    acc: Seq<crate::config::ImportView>,
)
    requires
        0 <= pos <= text.len(),
        spec_jimports_rest(text, pos, acc) is Some,
    ensures
        pos < spec_jimports_rest(text, pos, acc)->Some_0.1 <= text.len(),
    decreases text.len() - pos,
{
    lemma_skip_ws_bounds(text, pos);
    let q = spec_skip_ws(text, pos);
    if text[q] == ']' {
    } else {
        let (e, p2) = spec_jimport(text, q + 1)->Some_0;
        lemma_jimport_bounds(text, q + 1);
        lemma_jimports_rest_bounds(text, p2, acc.push(e));
    }
}

pub proof fn lemma_jimports_bounds(text: Seq<char>, pos: int)
    requires
        0 <= pos <= text.len(),
        spec_jimports(text, pos) is Some,
    ensures
        pos < spec_jimports(text, pos)->Some_0.1 <= text.len(),
{
    let p1 = spec_jtoken(text, pos, "["@)->Some_0;
    lemma_jtoken_bounds(text, pos, "["@);
    lemma_skip_ws_bounds(text, p1);
    let q = spec_skip_ws(text, p1);
    if 0 <= q < text.len() && text[q] == ']' {
    } else {
        let (e, p2) = spec_jimport(text, p1)->Some_0;
        lemma_jimport_bounds(text, p1);
        lemma_jimports_rest_bounds(text, p2, seq![e]);
    }
}

/// The decoded imports agree with the spec imports, element by element.
pub open spec fn imports_match(
    ls: Seq<crate::config::Import>,
    gs: Seq<crate::config::ImportView>,
) -> bool {
    ls.len() == gs.len() && forall|k: int| 0 <= k < gs.len() ==> (#[trigger] ls[k])@ == gs[k]
}

/// Reads an import array.
fn jimports(text: &str, pos: usize) -> (r: Option<(Vec<crate::config::Import>, usize)>)
    requires
        pos <= text@.len(),
    ensures
        match spec_jimports(text@, pos as int) {
            Some((is, p)) => r matches Some(q) && imports_match(q.0@, is) && q.1 == p && pos <= p
                <= text@.len(),
            None => r is None,
        },
{
    proof {
        reveal_strlit("[");
    }
    let len = text.unicode_len();
    let p1 = match expect_jtoken(text, pos, "[") {
        Some(p) => p,
        None => {
            return None;
        },
    };
    let q = skip_ws(text, p1);
    if q < len && text.get_char(q) == ']' {
        let out: Vec<crate::config::Import> = Vec::new();
        proof {
            assert(imports_match(out@, Seq::empty()));
        }
        return Some((out, q + 1));
    }
    let (e0, p2) = match jimport(text, p1) {
        Some(x) => x,
        None => {
            return None;
        },
    };
    let mut acc: Vec<crate::config::Import> = Vec::new();
    let ghost mut gacc: Seq<crate::config::ImportView> = seq![e0@];
    acc.push(e0);
    let mut cur = p2;
    proof {
        assert(imports_match(acc@, gacc));
    }
    loop
        invariant
            pos <= cur <= text@.len(),
            spec_jimports(text@, pos as int) == spec_jimports_rest(text@, cur as int, gacc),
            imports_match(acc@, gacc),
        decreases text@.len() - cur,
    {
        let len2 = text.unicode_len();
        let q2 = skip_ws(text, cur);
        if q2 >= len2 {
            return None;
        }
        let c = text.get_char(q2);
        if c == ']' {
            return Some((acc, q2 + 1));
        }
        if c != ',' {
            return None;
        }
        match jimport(text, q2 + 1) {
            None => {
                return None;
            },
            Some((e, p3)) => {
                proof {
                    lemma_jimport_bounds(text@, q2 + 1);
                    gacc = gacc.push(e@);
                }
                acc.push(e);
                proof {
                    assert(imports_match(acc@, gacc));
                }
                cur = p3;
            },
        }
    }
}

/// A configuration field's value once seen: a field not seen yet is the
/// outer `None`.
pub open spec fn opt_field(o: Option<Option<Seq<char>>>) -> Option<Seq<char>> {
    match o {
        Some(v) => v,
        None => None,
    }
}

/// Reads one field of the configuration object at `pos`: one of the four
/// known keys, each at most once, in any order, with its `:` and value;
/// then hands over to what follows the field.
pub open spec fn spec_config_fields(
    text: Seq<char>,
    pos: int,
    td: Option<Option<Seq<char>>>,
    sd: Option<Option<Seq<char>>>,
    es: Option<Seq<crate::config::ExportView>>,
    is: Option<Seq<crate::config::ImportView>>,
) -> Option<(crate::config::ConfigView, int)>
    decreases text.len() - pos,
    via spec_config_fields_dec
{
    if pos < 0 || pos > text.len() {
        None
    } else if spec_jtoken(text, pos, "\"temp_dir\""@) is Some {
        let p1 = spec_jtoken(text, pos, "\"temp_dir\""@)->Some_0;
        if td is Some {
            None
        } else {
            match spec_jtoken(text, p1, ":"@) {
                None => None,
                Some(p2) => match spec_jnull_or_string(text, p2) {
                    None => None,
                    Some((v, p3)) => spec_config_next(text, p3, Some(v), sd, es, is),
                },
            }
        }
    } else if spec_jtoken(text, pos, "\"secrets_dir\""@) is Some {
        let p1 = spec_jtoken(text, pos, "\"secrets_dir\""@)->Some_0;
        if sd is Some {
            None
        } else {
            match spec_jtoken(text, p1, ":"@) {
                None => None,
                Some(p2) => match spec_jnull_or_string(text, p2) {
                    None => None,
                    Some((v, p3)) => spec_config_next(text, p3, td, Some(v), es, is),
                },
            }
        }
    } else if spec_jtoken(text, pos, "\"exports\""@) is Some {
        let p1 = spec_jtoken(text, pos, "\"exports\""@)->Some_0;
        if es is Some {
            None
        } else {
            match spec_jtoken(text, p1, ":"@) {
                None => None,
                Some(p2) => match spec_jexports(text, p2) {
                    None => None,
                    Some((v, p3)) => spec_config_next(text, p3, td, sd, Some(v), is),
                },
            }
        }
    } else if spec_jtoken(text, pos, "\"imports\""@) is Some {
        let p1 = spec_jtoken(text, pos, "\"imports\""@)->Some_0;
        if is is Some {
            None
        } else {
            match spec_jtoken(text, p1, ":"@) {
                None => None,
                Some(p2) => match spec_jimports(text, p2) {
                    None => None,
                    Some((v, p3)) => spec_config_next(text, p3, td, sd, es, Some(v)),
                },
            }
        }
    } else {
        None
    }
}

/// What follows a field: a comma and another field, or the closing brace.
/// At the brace the directories default to absent, while the export and
/// import arrays must have appeared.
pub open spec fn spec_config_next(
    text: Seq<char>,
    pos: int,
    td: Option<Option<Seq<char>>>,
    sd: Option<Option<Seq<char>>>,
    es: Option<Seq<crate::config::ExportView>>,
    is: Option<Seq<crate::config::ImportView>>,
) -> Option<(crate::config::ConfigView, int)>
    decreases text.len() - pos,
    via spec_config_next_dec
{
    if pos < 0 || pos > text.len() {
        None
    } else {
        let q = spec_skip_ws(text, pos);
        if q >= text.len() {
            None
        } else if text[q] == ',' {
            spec_config_fields(text, q + 1, td, sd, es, is)
        } else if text[q] == '}' {
            match (es, is) {
                (Some(e), Some(im)) => Some(
                    (
                        crate::config::ConfigView {
                            temp_dir: opt_field(td),
                            secrets_dir: opt_field(sd),
                            exports: e,
                            imports: im,
                        },
                        q + 1,
                    ),
                ),
                _ => None,
            }
        } else {
            None
        }
    }
}

#[via_fn]
proof fn spec_config_fields_dec(
    text: Seq<char>,
    pos: int,
    td: Option<Option<Seq<char>>>,
    sd: Option<Option<Seq<char>>>,
    es: Option<Seq<crate::config::ExportView>>,
    is: Option<Seq<crate::config::ImportView>>,
) {
    if 0 <= pos <= text.len() {
        if spec_jtoken(text, pos, "\"temp_dir\""@) is Some {
            let p1 = spec_jtoken(text, pos, "\"temp_dir\""@)->Some_0;
            lemma_jtoken_bounds(text, pos, "\"temp_dir\""@);
            if spec_jtoken(text, p1, ":"@) is Some {
                let p2 = spec_jtoken(text, p1, ":"@)->Some_0;
                lemma_jtoken_bounds(text, p1, ":"@);
                if spec_jnull_or_string(text, p2) is Some {
                    lemma_jnull_or_string_bounds(text, p2);
                }
            }
        } else if spec_jtoken(text, pos, "\"secrets_dir\""@) is Some {
            let p1 = spec_jtoken(text, pos, "\"secrets_dir\""@)->Some_0;
            lemma_jtoken_bounds(text, pos, "\"secrets_dir\""@);
            if spec_jtoken(text, p1, ":"@) is Some {
                let p2 = spec_jtoken(text, p1, ":"@)->Some_0;
                lemma_jtoken_bounds(text, p1, ":"@);
                if spec_jnull_or_string(text, p2) is Some {
                    lemma_jnull_or_string_bounds(text, p2);
                }
            }
        } else if spec_jtoken(text, pos, "\"exports\""@) is Some {
            let p1 = spec_jtoken(text, pos, "\"exports\""@)->Some_0;
            lemma_jtoken_bounds(text, pos, "\"exports\""@);
            if spec_jtoken(text, p1, ":"@) is Some {
                let p2 = spec_jtoken(text, p1, ":"@)->Some_0;
                lemma_jtoken_bounds(text, p1, ":"@);
                if spec_jexports(text, p2) is Some {
                    lemma_jexports_bounds(text, p2);
                }
            }
        } else if spec_jtoken(text, pos, "\"imports\""@) is Some {
            let p1 = spec_jtoken(text, pos, "\"imports\""@)->Some_0;
            lemma_jtoken_bounds(text, pos, "\"imports\""@);
            if spec_jtoken(text, p1, ":"@) is Some {
                let p2 = spec_jtoken(text, p1, ":"@)->Some_0;
                lemma_jtoken_bounds(text, p1, ":"@);
                if spec_jimports(text, p2) is Some {
                    lemma_jimports_bounds(text, p2);
                }
            }
        }
    }
}

#[via_fn]
proof fn spec_config_next_dec(
    text: Seq<char>,
    pos: int,
    td: Option<Option<Seq<char>>>,
    sd: Option<Option<Seq<char>>>,
    es: Option<Seq<crate::config::ExportView>>,
    is: Option<Seq<crate::config::ImportView>>,
) {
    if 0 <= pos <= text.len() {
        lemma_skip_ws_bounds(text, pos);
    }
}

/// A whole configuration object, with nothing but whitespace after it:
/// one pair of braces holding the four known fields in any order, the two
/// directory fields omissible.
pub open spec fn spec_parse_config(text: Seq<char>) -> Option<crate::config::ConfigView> {
    match spec_jtoken(text, 0, "{"@) {
        None => None,
        Some(p1) => match spec_config_fields(text, p1, None, None, None, None) {
            None => None,
            Some((c, p)) => {
                if spec_skip_ws(text, p) == text.len() {
                    Some(c)
                } else {
                    None
                }
            },
        },
    }
}

/// The spec-level form of a pending string field.
pub open spec fn opt2_view(o: Option<Option<String>>) -> Option<Option<Seq<char>>> {
    match o {
        None => None,
        Some(None) => Some(None),
        Some(Some(s)) => Some(Some(s@)),
    }
}

/// The pending export array agrees with its spec-level form.
pub open spec fn opt_exports_match(
    es: Option<Vec<crate::config::Export>>,
    gs: Option<Seq<crate::config::ExportView>>,
) -> bool {
    match (es, gs) {
        (None, None) => true,
        (Some(v), Some(g)) => exports_match(v@, g),
        _ => false,
    }
}

/// The pending import array agrees with its spec-level form.
pub open spec fn opt_imports_match(
    is: Option<Vec<crate::config::Import>>,
    gs: Option<Seq<crate::config::ImportView>>,
) -> bool {
    match (is, gs) {
        (None, None) => true,
        (Some(v), Some(g)) => imports_match(v@, g),
        _ => false,
    }
}

/// Decodes a configuration from JSON text.
#[verifier::loop_isolation(false)]
#[verifier::rlimit(100)]
#[verifier::spinoff_prover]
pub fn decode_config(text: &str) -> (r: Option<crate::config::Config>)
    ensures
        match spec_parse_config(text@) {
            Some(cv) => r matches Some(c) && c@ == cv,
            None => r is None,
        },
{
    proof {
        reveal_strlit("{");
        reveal_strlit("}");
        reveal_strlit(":");
        reveal_strlit(",");
        reveal_strlit("\"temp_dir\"");
        reveal_strlit("\"secrets_dir\"");
        reveal_strlit("\"exports\"");
        reveal_strlit("\"imports\"");
    }
    let len = text.unicode_len();
    let p1 = match expect_jtoken(text, 0, "{") {
        Some(p) => p,
        None => {
            return None;
        },
    };
    let mut cur: usize = p1;
    let mut td: Option<Option<String>> = None;
    let mut sd: Option<Option<String>> = None;
    let mut es: Option<Vec<crate::config::Export>> = None;
    let mut is_v: Option<Vec<crate::config::Import>> = None;
    let ghost mut g_es: Option<Seq<crate::config::ExportView>> = None;
    let ghost mut g_is: Option<Seq<crate::config::ImportView>> = None;
    loop
        invariant
            cur <= text@.len(),
            opt_exports_match(es, g_es),
            opt_imports_match(is_v, g_is),
            spec_parse_config(text@) == (match spec_config_fields(
                text@,
                cur as int,
                opt2_view(td),
                opt2_view(sd),
                g_es,
                g_is,
            ) {
                Some((c, p)) => {
                    if spec_skip_ws(text@, p) == text@.len() {
                        Some(c)
                    } else {
                        None
                    }
                },
                None => None,
            }),
        decreases text@.len() - cur,
    {
        if let Some(k1) = expect_jtoken(text, cur, "\"temp_dir\"") {
            if td.is_some() {
                return None;
            }
            let k2 = match expect_jtoken(text, k1, ":") {
                Some(p) => p,
                None => {
                    return None;
                },
            };
            let (v, k3) = match jnull_or_string(text, k2) {
                Some(x) => x,
                None => {
                    return None;
                },
            };
            td = Some(v);
            cur = k3;
        } else if let Some(k1) = expect_jtoken(text, cur, "\"secrets_dir\"") {
            if sd.is_some() {
                return None;
            }
            let k2 = match expect_jtoken(text, k1, ":") {
                Some(p) => p,
                None => {
                    return None;
                },
            };
            let (v, k3) = match jnull_or_string(text, k2) {
                Some(x) => x,
                None => {
                    return None;
                },
            };
            sd = Some(v);
            cur = k3;
        } else if let Some(k1) = expect_jtoken(text, cur, "\"exports\"") {
            if es.is_some() {
                return None;
            }
            let k2 = match expect_jtoken(text, k1, ":") {
                Some(p) => p,
                None => {
                    return None;
                },
            };
            let (v, k3) = match jexports(text, k2) {
                Some(x) => x,
                None => {
                    return None;
                },
            };
            proof {
                g_es = Some(spec_jexports(text@, k2 as int)->Some_0.0);
            }
            es = Some(v);
            cur = k3;
        } else if let Some(k1) = expect_jtoken(text, cur, "\"imports\"") {
            if is_v.is_some() {
                return None;
            }
            let k2 = match expect_jtoken(text, k1, ":") {
                Some(p) => p,
                None => {
                    return None;
                },
            };
            let (v, k3) = match jimports(text, k2) {
                Some(x) => x,
                None => {
                    return None;
                },
            };
            proof {
                g_is = Some(spec_jimports(text@, k2 as int)->Some_0.0);
            }
            is_v = Some(v);
            cur = k3;
        } else {
            return None;
        }
        let q = skip_ws(text, cur);
        if q >= len {
            return None;
        }
        let c = text.get_char(q);
        if c == ',' {
            cur = q + 1;
        } else if c == '}' {
            let e = match es {
                Some(x) => x,
                None => {
                    return None;
                },
            };
            let im = match is_v {
                Some(x) => x,
                None => {
                    return None;
                },
            };
            if skip_ws(text, q + 1) != len {
                return None;
            }
            let out = crate::config::Config {
                temp_dir: match td {
                    Some(x) => x,
                    None => None,
                },
                secrets_dir: match sd {
                    Some(x) => x,
                    None => None,
                },
                exports: e,
                imports: im,
            };
            proof {
                let cv = spec_parse_config(text@)->Some_0;
                assert forall|k: int|
                    0 <= k < out.exports.deep_view().len() implies out.exports.deep_view()[k]
                    == cv.exports[k] by {
                    assert(out.exports.deep_view()[k] == out.exports@[k].deep_view());
                }
                assert(out.exports.deep_view() =~= cv.exports);
                assert forall|k: int|
                    0 <= k < out.imports.deep_view().len() implies out.imports.deep_view()[k]
                    == cv.imports[k] by {
                    assert(out.imports.deep_view()[k] == out.imports@[k].deep_view());
                }
                assert(out.imports.deep_view() =~= cv.imports);
            }
            return Some(out);
        } else {
            return None;
        }
    }
}

/// A string value or `null` as JSON text.
pub open spec fn spec_json_null_or_str(o: Option<Seq<char>>) -> Seq<char> {
    match o {
        None => "null"@,
        Some(s) => seq!['"'] + spec_escape(s) + seq!['"'],
    }
}

/// A port array as JSON text.
pub open spec fn spec_json_of_ports(ps: Seq<u16>) -> Seq<char> {
    "["@ + crate::spec_ports_csv(ps) + "]"@
}

/// An export as JSON text.
pub open spec fn spec_json_of_export(e: crate::config::ExportView) -> Seq<char> {
    "{"@ + "\"local_addr\""@ + ":"@ + (seq!['"'] + spec_escape(e.local_addr) + seq!['"']) + ","@
        + "\"service_name\""@ + ":"@ + spec_json_null_or_str(e.service_name) + ","@
        + "\"remote_ports\""@ + ":"@ + spec_json_of_ports(e.remote_ports) + "}"@
}

/// An import as JSON text.
pub open spec fn spec_json_of_import(i: crate::config::ImportView) -> Seq<char> {
    "{"@ + "\"remote_addr\""@ + ":"@ + (seq!['"'] + spec_escape(i.remote_addr) + seq!['"']) + ","@
        + "\"local_addr\""@ + ":"@ + (seq!['"'] + spec_escape(i.local_addr) + seq!['"']) + "}"@
}

/// Exports joined with commas.
pub open spec fn spec_json_exports_csv(es: Seq<crate::config::ExportView>) -> Seq<char>
    decreases es.len(),
{
    if es.len() == 0 {
        Seq::empty()
    } else if es.len() == 1 {
        spec_json_of_export(es[0])
    } else {
        spec_json_exports_csv(es.drop_last()) + ","@ + spec_json_of_export(es.last())
    }
}

/// Imports joined with commas.
pub open spec fn spec_json_imports_csv(is: Seq<crate::config::ImportView>) -> Seq<char>
    decreases is.len(),
{
    if is.len() == 0 {
        Seq::empty()
    } else if is.len() == 1 {
        spec_json_of_import(is[0])
    } else {
        spec_json_imports_csv(is.drop_last()) + ","@ + spec_json_of_import(is.last())
    }
}

/// A whole configuration as JSON text.
pub open spec fn spec_json_of_config(c: crate::config::ConfigView) -> Seq<char> {
    "{"@ + "\"temp_dir\""@ + ":"@ + spec_json_null_or_str(c.temp_dir) + ","@
        + "\"secrets_dir\""@ + ":"@ + spec_json_null_or_str(c.secrets_dir) + ","@
        + "\"exports\""@ + ":"@ + ("["@ + spec_json_exports_csv(c.exports) + "]"@) + ","@
        + "\"imports\""@ + ":"@ + ("["@ + spec_json_imports_csv(c.imports) + "]"@) + "}"@
}

/// Appends a string value or `null`.
fn push_null_or_str(out: &mut String, o: &Option<String>)
    ensures
        final(out)@ == old(out)@ + spec_json_null_or_str(match o {
            Some(s) => Some(s@),
            None => None,
        }),
{
    match o {
        None => {
            out.append("null");
        },
        Some(s) => {
            push_jstring(out, s.as_str());
            proof {
                assert(final(out)@ =~= old(out)@ + spec_json_null_or_str(Some(s@)));
            }
        },
    }
}

/// Appends an export object.
fn push_export(out: &mut String, e: &crate::config::Export)
    ensures
        final(out)@ == old(out)@ + spec_json_of_export(e@),
{
    out.append("{");
    out.append("\"local_addr\"");
    out.append(":");
    push_jstring(out, e.local_addr.as_str());
    out.append(",");
    out.append("\"service_name\"");
    out.append(":");
    push_null_or_str(out, &e.service_name);
    out.append(",");
    out.append("\"remote_ports\"");
    out.append(":");
    out.append("[");
    let csv = crate::ports_csv(&e.remote_ports);
    out.append(csv.as_str());
    out.append("]");
    out.append("}");
    proof {
        assert(final(out)@ =~= old(out)@ + spec_json_of_export(e@));
    }
}

/// Appends an import object.
fn push_import(out: &mut String, i: &crate::config::Import)
    ensures
        final(out)@ == old(out)@ + spec_json_of_import(i@),
{
    out.append("{");
    out.append("\"remote_addr\"");
    out.append(":");
    push_jstring(out, i.remote_addr.as_str());
    out.append(",");
    out.append("\"local_addr\"");
    out.append(":");
    push_jstring(out, i.local_addr.as_str());
    out.append("}");
    proof {
        assert(final(out)@ =~= old(out)@ + spec_json_of_import(i@));
    }
}

/// Encodes a configuration as JSON text: one object, no whitespace, fields
/// in the declared order.
pub fn encode_config(c: &crate::config::Config) -> (r: String)
    ensures
        r@ == spec_json_of_config(c@),
{
    let mut out = String::new();
    out.append("{");
    out.append("\"temp_dir\"");
    out.append(":");
    push_null_or_str(&mut out, &c.temp_dir);
    out.append(",");
    out.append("\"secrets_dir\"");
    out.append(":");
    push_null_or_str(&mut out, &c.secrets_dir);
    out.append(",");
    out.append("\"exports\"");
    out.append(":");
    out.append("[");
    let ghost base_e = out@;
    let mut i: usize = 0;
    while i < c.exports.len()
        invariant
            i <= c.exports@.len(),
            out@ == base_e + spec_json_exports_csv(c.exports.deep_view().take(i as int)),
        decreases c.exports@.len() - i,
    {
        if i > 0 {
            out.append(",");
        }
        push_export(&mut out, &c.exports[i]);
        proof {
            let dv = c.exports.deep_view();
            assert(dv[i as int] == c.exports@[i as int].deep_view());
            assert(dv.take(i + 1).drop_last() =~= dv.take(i as int));
            assert(dv.take(i + 1).last() == dv[i as int]);
            assert(out@ =~= base_e + spec_json_exports_csv(dv.take(i + 1)));
        }
        i = i + 1;
    }
    proof {
        assert(c.exports.deep_view().take(c.exports@.len() as int) =~= c.exports.deep_view());
    }
    out.append("]");
    out.append(",");
    out.append("\"imports\"");
    out.append(":");
    out.append("[");
    let ghost base_i = out@;
    let mut j: usize = 0;
    while j < c.imports.len()
        invariant
            j <= c.imports@.len(),
            out@ == base_i + spec_json_imports_csv(c.imports.deep_view().take(j as int)),
        decreases c.imports@.len() - j,
    {
        if j > 0 {
            out.append(",");
        }
        push_import(&mut out, &c.imports[j]);
        proof {
            let dv = c.imports.deep_view();
            assert(dv[j as int] == c.imports@[j as int].deep_view());
            assert(dv.take(j + 1).drop_last() =~= dv.take(j as int));
            assert(dv.take(j + 1).last() == dv[j as int]);
            assert(out@ =~= base_i + spec_json_imports_csv(dv.take(j + 1)));
        }
        j = j + 1;
    }
    proof {
        assert(c.imports.deep_view().take(c.imports@.len() as int) =~= c.imports.deep_view());
    }
    out.append("]");
    out.append("}");
    proof {
        assert(out@ =~= spec_json_of_config(c@));
    }
    out
}


/// A prefix and a suffix both stand where their concatenation stands.
proof fn lemma_text_at_split(text: Seq<char>, pos: int, a: Seq<char>, b: Seq<char>)
    requires
        text_at(text, pos, a + b),
    ensures
        text_at(text, pos, a),
        text_at(text, pos + a.len(), b),
{
    assert forall|k: int| 0 <= k < a.len() implies text[pos + k] == #[trigger] a[k] by {
        assert((a + b)[k] == a[k]);
    }
    assert forall|k: int| 0 <= k < b.len() implies text[pos + a.len() + k] == #[trigger] b[k] by {
        assert((a + b)[a.len() + k] == b[k]);
    }
}

/// A token of the encoder's output parses as itself.
proof fn lemma_token_rt(text: Seq<char>, pos: int, tok: Seq<char>)
    requires
        text_at(text, pos, tok),
        tok.len() > 0,
        !is_ws_char(tok[0]),
    ensures
        spec_jtoken(text, pos, tok) == Some(pos + tok.len()),
{
    assert(text[pos + 0] == tok[0]);
    assert(spec_skip_ws(text, pos) == pos);
}

/// An encoded string parses back to itself.
proof fn lemma_jstring_rt(text: Seq<char>, pos: int, s: Seq<char>)
    requires
        text_at(text, pos, seq!['"'] + spec_escape(s) + seq!['"']),
    ensures
        spec_jstring(text, pos) == Some((s, pos + spec_escape(s).len() + 2)),
{
    let whole = seq!['"'] + spec_escape(s) + seq!['"'];
    assert(whole[0] == '"');
    assert(text[pos + 0] == whole[0]);
    assert(spec_skip_ws(text, pos) == pos);
    assert(text_at(text, pos + 1, spec_escape(s) + seq!['"'])) by {
        assert(forall|k: int|
            0 <= k < (spec_escape(s) + seq!['"']).len() ==> #[trigger] (spec_escape(s)
                + seq!['"'])[k] == whole[1 + k]);
    }
    lemma_jstr_round_trip(text, pos + 1, s);
}

/// An encoded string-or-null parses back to itself.
proof fn lemma_null_or_str_rt(text: Seq<char>, pos: int, o: Option<Seq<char>>)
    requires
        text_at(text, pos, spec_json_null_or_str(o)),
    ensures
        spec_jnull_or_string(text, pos) == Some((o, pos + spec_json_null_or_str(o).len())),
{
    reveal_strlit("null");
    match o {
        Some(s) => {
            let whole = seq!['"'] + spec_escape(s) + seq!['"'];
            assert(whole[0] == '"');
            assert(text[pos + 0] == whole[0]);
            assert(spec_skip_ws(text, pos) == pos);
            assert(text_at(text, pos + 1, spec_escape(s) + seq!['"'])) by {
                assert(forall|k: int|
                    0 <= k < (spec_escape(s) + seq!['"']).len() ==> #[trigger] (spec_escape(s)
                        + seq!['"'])[k] == whole[1 + k]);
            }
            lemma_jstr_round_trip(text, pos + 1, s);
        },
        None => {
            assert("null"@[0] == 'n');
            assert(text[pos + 0] == 'n');
            assert(spec_skip_ws(text, pos) == pos);
            assert(text[pos] != '"');
        },
    }
}

/// Decimal renderings are digit runs without leading zeros that read back
/// as their value.
pub proof fn lemma_spec_decimal_pub(n: nat)
    ensures
        spec_decimal(n).len() >= 1,
        forall|k: int|
            0 <= k < spec_decimal(n).len() ==> spec_digit_value(
                #[trigger] spec_decimal(n)[k],
            ) is Some,
        digits_val(spec_decimal(n)) == n,
{
    lemma_spec_decimal_props(n);
}

proof fn lemma_spec_decimal_props(n: nat)
    ensures
        spec_decimal(n).len() >= 1,
        forall|k: int|
            0 <= k < spec_decimal(n).len() ==> spec_digit_value(
                #[trigger] spec_decimal(n)[k],
            ) is Some,
        digits_val(spec_decimal(n)) == n,
        n >= 10 <==> spec_decimal(n).len() > 1,
        spec_decimal(n)[0] != '0' || n == 0,
    decreases n,
{
    if n < 10 {
        let c = (('0' as u8) + n as u8) as char;
        assert(spec_decimal(n) =~= seq![c]);
        assert(spec_digit_value(c) == Some(n as u8));
        assert(spec_decimal(n).drop_last() =~= Seq::<char>::empty());
        assert(digits_val(spec_decimal(n).drop_last()) == 0);
        assert(spec_decimal(n).last() == c);
        assert(digits_val(spec_decimal(n)) == 0 * 10 + n);
    } else {
        lemma_spec_decimal_props(n / 10);
        let d = (('0' as u8) + (n % 10) as u8) as char;
        assert(spec_decimal(n) == spec_decimal(n / 10).push(d));
        assert(spec_digit_value(d) == Some((n % 10) as u8));
        assert(spec_decimal(n).drop_last() =~= spec_decimal(n / 10));
        assert(spec_decimal(n).last() == d);
        assert(digits_val(spec_decimal(n)) == digits_val(spec_decimal(n / 10)) * 10 + n % 10);
        assert(forall|k: int|
            0 <= k < spec_decimal(n / 10).len() ==> spec_decimal(n)[k] == #[trigger] spec_decimal(
                n / 10,
            )[k]);
        assert(spec_decimal(n)[0] == spec_decimal(n / 10)[0]);
        assert(spec_decimal(n / 10)[0] != '0');
    }
}

/// An encoded port number parses back to itself when a non-digit follows.
proof fn lemma_ju16_rt(text: Seq<char>, pos: int, n: u16)
    requires
        text_at(text, pos, spec_decimal(n as nat)),
        pos + spec_decimal(n as nat).len() == text.len() || spec_digit_value(
            text[pos + spec_decimal(n as nat).len()],
        ) is None,
    ensures
        spec_ju16(text, pos) == Some((n, pos + spec_decimal(n as nat).len())),
{
    let d = spec_decimal(n as nat);
    lemma_spec_decimal_props(n as nat);
    assert(text[pos + 0] == d[0]);
    assert(!is_ws_char(d[0]));
    assert(spec_skip_ws(text, pos) == pos);
    assert forall|j: int| pos <= j < pos + d.len() implies spec_digit_value(
        #[trigger] text[j],
    ) is Some by {
        assert(text[pos + (j - pos)] == d[j - pos]);
        assert(spec_digit_value(d[j - pos]) is Some);
    }
    lemma_digits_end_from(text, pos, d.len() as int);
    assert(text.subrange(pos, pos + d.len()) =~= d);
    if d.len() > 1 {
        assert(text[pos] != '0');
    }
}

/// The comma-separated tail of an encoded port list.
pub open spec fn spec_ports_tail(rem: Seq<u16>) -> Seq<char>
    decreases rem.len(),
{
    if rem.len() == 0 {
        Seq::empty()
    } else {
        seq![','] + spec_decimal(rem[0] as nat) + spec_ports_tail(rem.drop_first())
    }
}

/// A port list renders as its first number and its tail.
proof fn lemma_ports_csv_tail(ps: Seq<u16>)
    requires
        ps.len() > 0,
    ensures
        crate::spec_ports_csv(ps) == spec_decimal(ps[0] as nat) + spec_ports_tail(
            ps.drop_first(),
        ),
    decreases ps.len(),
{
    if ps.len() == 1 {
        assert(ps.drop_first() =~= Seq::<u16>::empty());
        assert(crate::spec_ports_csv(ps) =~= spec_decimal(ps[0] as nat) + spec_ports_tail(
            ps.drop_first(),
        ));
    } else {
        let t = ps.drop_last();
        lemma_ports_csv_tail(t);
        assert(ps.drop_first().drop_last() =~= t.drop_first());
        assert(ps.drop_first().last() == ps.last());
        assert(t[0] == ps[0]);
        if t.len() == 1 {
            assert(t.drop_first() =~= Seq::<u16>::empty());
            assert(ps.drop_first() =~= seq![ps.last()]);
            assert(spec_ports_tail(ps.drop_first()) =~= seq![','] + spec_decimal(
                ps.last() as nat,
            ) + spec_ports_tail(ps.drop_first().drop_first()));
            assert(ps.drop_first().drop_first() =~= Seq::<u16>::empty());
            assert(crate::spec_ports_csv(ps) =~= spec_decimal(ps[0] as nat) + spec_ports_tail(
                ps.drop_first(),
            ));
        } else {
            assert(spec_ports_tail(ps.drop_first()) == seq![','] + spec_decimal(
                ps.drop_first()[0] as nat,
            ) + spec_ports_tail(ps.drop_first().drop_first()));
            assert(ps.drop_first()[0] == t.drop_first()[0]);
            assert(spec_ports_tail(t.drop_first()).len() >= 0);
            assert(crate::spec_ports_csv(ps) == crate::spec_ports_csv(t) + seq![',']
                + spec_decimal(ps.last() as nat));
            lemma_ports_tail_snoc(t.drop_first(), ps.last());
            assert(ps.drop_first() =~= t.drop_first().push(ps.last()));
            assert(crate::spec_ports_csv(ps) =~= spec_decimal(ps[0] as nat) + spec_ports_tail(
                ps.drop_first(),
            ));
        }
    }
}

/// Appending one port extends the tail rendering by a comma and a number.
proof fn lemma_ports_tail_snoc(rem: Seq<u16>, v: u16)
    ensures
        spec_ports_tail(rem.push(v)) == spec_ports_tail(rem) + seq![','] + spec_decimal(v as nat),
    decreases rem.len(),
{
    if rem.len() == 0 {
        let pv = rem.push(v);
        assert(pv[0] == v);
        assert(pv.drop_first() =~= Seq::<u16>::empty());
        assert(spec_ports_tail(pv.drop_first()) =~= Seq::<char>::empty());
        assert(spec_ports_tail(pv) == seq![','] + spec_decimal(v as nat) + spec_ports_tail(
            pv.drop_first(),
        ));
        assert(spec_ports_tail(rem) =~= Seq::<char>::empty());
        assert(spec_ports_tail(pv) =~= spec_ports_tail(rem) + seq![','] + spec_decimal(v as nat));
    } else {
        lemma_ports_tail_snoc(rem.drop_first(), v);
        assert(rem.push(v).drop_first() =~= rem.drop_first().push(v));
        assert(rem.push(v)[0] == rem[0]);
        assert(spec_ports_tail(rem.push(v)) =~= spec_ports_tail(rem) + seq![','] + spec_decimal(
            v as nat,
        ));
    }
}

/// The rest of an encoded port list parses back, element by element.
proof fn lemma_jports_rest_rt(text: Seq<char>, pos: int, rem: Seq<u16>, acc: Seq<u16>)
    requires
        text_at(text, pos, spec_ports_tail(rem) + seq![']']),
    ensures
        spec_jports_rest(text, pos, acc) == Some(
            (acc + rem, pos + spec_ports_tail(rem).len() + 1),
        ),
    decreases rem.len(),
{
    let whole = spec_ports_tail(rem) + seq![']'];
    if rem.len() == 0 {
        assert(whole[0] == ']');
        assert(text[pos + 0] == ']');
        assert(spec_skip_ws(text, pos) == pos);
        assert(acc + rem =~= acc);
    } else {
        let d = spec_decimal(rem[0] as nat);
        let tail = spec_ports_tail(rem.drop_first());
        assert(whole =~= seq![','] + (d + (tail + seq![']'])));
        lemma_text_at_split(text, pos, seq![','], d + (tail + seq![']']));
        lemma_text_at_split(text, pos + 1, d, tail + seq![']']);
        assert(text[pos + 0] == whole[0] && whole[0] == ',');
        assert(spec_skip_ws(text, pos) == pos);
        lemma_spec_decimal_props(rem[0] as nat);
        assert((tail + seq![']']).len() > 0);
        assert(text[pos + 1 + d.len()] == (tail + seq![']'])[0]);
        if rem.len() == 1 {
            assert(tail.len() == 0);
            assert((tail + seq![']'])[0] == ']');
        } else {
            assert(tail == seq![','] + spec_decimal(rem.drop_first()[0] as nat) + spec_ports_tail(
                rem.drop_first().drop_first(),
            ));
            assert((tail + seq![']'])[0] == ',');
        }
        assert(spec_digit_value(text[pos + 1 + d.len()]) is None);
        lemma_ju16_rt(text, pos + 1, rem[0]);
        lemma_jports_rest_rt(text, pos + 1 + d.len(), rem.drop_first(), acc.push(rem[0]));
        assert(acc.push(rem[0]) + rem.drop_first() =~= acc + rem);
    }
}

/// An encoded port list parses back to itself.
proof fn lemma_jports_rt(text: Seq<char>, pos: int, ps: Seq<u16>)
    requires
        text_at(text, pos, spec_json_of_ports(ps)),
    ensures
        spec_jports(text, pos) == Some((ps, pos + spec_json_of_ports(ps).len())),
{
    reveal_strlit("[");
    reveal_strlit("]");
    let whole = spec_json_of_ports(ps);
    assert(whole =~= "["@ + (crate::spec_ports_csv(ps) + "]"@));
    lemma_text_at_split(text, pos, "["@, crate::spec_ports_csv(ps) + "]"@);
    lemma_token_rt(text, pos, "["@);
    let p1 = pos + 1;
    if ps.len() == 0 {
        assert((crate::spec_ports_csv(ps) + "]"@).len() == 1);
        assert((crate::spec_ports_csv(ps) + "]"@)[0] == ']');
        assert(text[p1 + 0] == (crate::spec_ports_csv(ps) + "]"@)[0]);
        assert(spec_skip_ws(text, p1) == p1);
        assert(Seq::<u16>::empty() =~= ps);
    } else {
        lemma_ports_csv_tail(ps);
        let d = spec_decimal(ps[0] as nat);
        let tail = spec_ports_tail(ps.drop_first());
        assert(crate::spec_ports_csv(ps) + "]"@ =~= d + (tail + seq![']']));
        lemma_text_at_split(text, p1, d, tail + seq![']']);
        lemma_spec_decimal_props(ps[0] as nat);
        assert(text[p1 + 0] == d[0]);
        assert(spec_skip_ws(text, p1) == p1);
        assert(text[p1] != ']');
        assert((tail + seq![']']).len() > 0);
        assert(text[p1 + d.len()] == (tail + seq![']'])[0]);
        if ps.len() == 1 {
            assert(tail.len() == 0);
            assert((tail + seq![']'])[0] == ']');
        } else {
            assert(tail == seq![','] + spec_decimal(ps.drop_first()[0] as nat) + spec_ports_tail(
                ps.drop_first().drop_first(),
            ));
            assert((tail + seq![']'])[0] == ',');
        }
        assert(spec_digit_value(text[p1 + d.len()]) is None);
        lemma_ju16_rt(text, p1, ps[0]);
        lemma_jports_rest_rt(text, p1 + d.len(), ps.drop_first(), seq![ps[0]]);
        assert(seq![ps[0]] + ps.drop_first() =~= ps);
    }
}


/// An encoded export object parses back to itself.
#[verifier::rlimit(100)]
#[verifier::spinoff_prover]
proof fn lemma_jexport_rt(text: Seq<char>, pos: int, e: crate::config::ExportView)
    requires
        text_at(text, pos, spec_json_of_export(e)),
    ensures
        spec_jexport(text, pos) == Some((e, pos + spec_json_of_export(e).len())),
{
    reveal_strlit("{");
    reveal_strlit("}");
    reveal_strlit(":");
    reveal_strlit(",");
    reveal_strlit("\"local_addr\"");
    reveal_strlit("\"service_name\"");
    reveal_strlit("\"remote_ports\"");
    let whole = spec_json_of_export(e);
    let a3 = seq!['"'] + spec_escape(e.local_addr) + seq!['"'];
    let a7 = spec_json_null_or_str(e.service_name);
    let a11 = spec_json_of_ports(e.remote_ports);
    let r1 = "\"local_addr\""@ + (":"@ + (a3 + (","@ + ("\"service_name\""@ + (":"@ + (a7 + (","@
        + ("\"remote_ports\""@ + (":"@ + (a11 + "}"@))))))))));
    assert(whole =~= "{"@ + r1);
    lemma_text_at_split(text, pos, "{"@, r1);
    lemma_token_rt(text, pos, "{"@);
    let p1 = pos + 1;
    lemma_text_at_split(text, p1, "\"local_addr\""@, ":"@ + (a3 + (","@ + ("\"service_name\""@
        + (":"@ + (a7 + (","@ + ("\"remote_ports\""@ + (":"@ + (a11 + "}"@))))))))));
    lemma_token_rt(text, p1, "\"local_addr\""@);
    let p2 = p1 + "\"local_addr\""@.len();
    lemma_text_at_split(text, p2, ":"@, a3 + (","@ + ("\"service_name\""@ + (":"@ + (a7 + (","@
        + ("\"remote_ports\""@ + (":"@ + (a11 + "}"@)))))))));
    lemma_token_rt(text, p2, ":"@);
    let p3 = p2 + 1;
    lemma_text_at_split(text, p3, a3, ","@ + ("\"service_name\""@ + (":"@ + (a7 + (","@
        + ("\"remote_ports\""@ + (":"@ + (a11 + "}"@))))))));
    lemma_jstring_rt(text, p3, e.local_addr);
    let p4 = p3 + a3.len();
    lemma_text_at_split(text, p4, ","@, "\"service_name\""@ + (":"@ + (a7 + (","@
        + ("\"remote_ports\""@ + (":"@ + (a11 + "}"@)))))));
    lemma_token_rt(text, p4, ","@);
    let p5 = p4 + 1;
    lemma_text_at_split(text, p5, "\"service_name\""@, ":"@ + (a7 + (","@
        + ("\"remote_ports\""@ + (":"@ + (a11 + "}"@))))));
    lemma_token_rt(text, p5, "\"service_name\""@);
    let p6 = p5 + "\"service_name\""@.len();
    lemma_text_at_split(text, p6, ":"@, a7 + (","@ + ("\"remote_ports\""@ + (":"@ + (a11
        + "}"@)))));
    lemma_token_rt(text, p6, ":"@);
    let p7 = p6 + 1;
    lemma_text_at_split(text, p7, a7, ","@ + ("\"remote_ports\""@ + (":"@ + (a11 + "}"@))));
    lemma_null_or_str_rt(text, p7, e.service_name);
    let p8 = p7 + a7.len();
    lemma_text_at_split(text, p8, ","@, "\"remote_ports\""@ + (":"@ + (a11 + "}"@)));
    lemma_token_rt(text, p8, ","@);
    let p9 = p8 + 1;
    lemma_text_at_split(text, p9, "\"remote_ports\""@, ":"@ + (a11 + "}"@));
    lemma_token_rt(text, p9, "\"remote_ports\""@);
    let p10 = p9 + "\"remote_ports\""@.len();
    lemma_text_at_split(text, p10, ":"@, a11 + "}"@);
    lemma_token_rt(text, p10, ":"@);
    let p11 = p10 + 1;
    lemma_text_at_split(text, p11, a11, "}"@);
    lemma_jports_rt(text, p11, e.remote_ports);
    let p12 = p11 + a11.len();
    lemma_token_rt(text, p12, "}"@);
    assert(spec_jexport(text, pos) == Some((e, p12 + 1)));
    assert(p12 + 1 == pos + whole.len());
}

/// An encoded import object parses back to itself.
#[verifier::rlimit(100)]
#[verifier::spinoff_prover]
proof fn lemma_jimport_rt(text: Seq<char>, pos: int, i: crate::config::ImportView)
    requires
        text_at(text, pos, spec_json_of_import(i)),
    ensures
        spec_jimport(text, pos) == Some((i, pos + spec_json_of_import(i).len())),
{
    reveal_strlit("{");
    reveal_strlit("}");
    reveal_strlit(":");
    reveal_strlit(",");
    reveal_strlit("\"remote_addr\"");
    reveal_strlit("\"local_addr\"");
    let whole = spec_json_of_import(i);
    let a3 = seq!['"'] + spec_escape(i.remote_addr) + seq!['"'];
    let a7 = seq!['"'] + spec_escape(i.local_addr) + seq!['"'];
    assert(whole =~= "{"@ + ("\"remote_addr\""@ + (":"@ + (a3 + (","@ + ("\"local_addr\""@
        + (":"@ + (a7 + "}"@))))))));
    lemma_text_at_split(text, pos, "{"@, "\"remote_addr\""@ + (":"@ + (a3 + (","@
        + ("\"local_addr\""@ + (":"@ + (a7 + "}"@)))))));
    lemma_token_rt(text, pos, "{"@);
    let p1 = pos + 1;
    lemma_text_at_split(text, p1, "\"remote_addr\""@, ":"@ + (a3 + (","@ + ("\"local_addr\""@
        + (":"@ + (a7 + "}"@))))));
    lemma_token_rt(text, p1, "\"remote_addr\""@);
    let p2 = p1 + "\"remote_addr\""@.len();
    lemma_text_at_split(text, p2, ":"@, a3 + (","@ + ("\"local_addr\""@ + (":"@ + (a7
        + "}"@)))));
    lemma_token_rt(text, p2, ":"@);
    let p3 = p2 + 1;
    lemma_text_at_split(text, p3, a3, ","@ + ("\"local_addr\""@ + (":"@ + (a7 + "}"@))));
    lemma_jstring_rt(text, p3, i.remote_addr);
    let p4 = p3 + a3.len();
    lemma_text_at_split(text, p4, ","@, "\"local_addr\""@ + (":"@ + (a7 + "}"@)));
    lemma_token_rt(text, p4, ","@);
    let p5 = p4 + 1;
    lemma_text_at_split(text, p5, "\"local_addr\""@, ":"@ + (a7 + "}"@));
    lemma_token_rt(text, p5, "\"local_addr\""@);
    let p6 = p5 + "\"local_addr\""@.len();
    lemma_text_at_split(text, p6, ":"@, a7 + "}"@);
    lemma_token_rt(text, p6, ":"@);
    let p7 = p6 + 1;
    lemma_text_at_split(text, p7, a7, "}"@);
    lemma_jstring_rt(text, p7, i.local_addr);
    let p8 = p7 + a7.len();
    lemma_token_rt(text, p8, "}"@);
    assert(spec_jimport(text, pos) == Some((i, p8 + 1)));
    assert(p8 + 1 == pos + whole.len());
}

/// The comma-separated tail of an encoded export array.
pub open spec fn spec_exports_tail(rem: Seq<crate::config::ExportView>) -> Seq<char>
    decreases rem.len(),
{
    if rem.len() == 0 {
        Seq::empty()
    } else {
        seq![','] + spec_json_of_export(rem[0]) + spec_exports_tail(rem.drop_first())
    }
}

proof fn lemma_exports_tail_snoc(rem: Seq<crate::config::ExportView>, v: crate::config::ExportView)
    ensures
        spec_exports_tail(rem.push(v)) == spec_exports_tail(rem) + seq![','] + spec_json_of_export(
            v,
        ),
    decreases rem.len(),
{
    if rem.len() == 0 {
        let pv = rem.push(v);
        assert(pv[0] == v);
        assert(pv.drop_first() =~= Seq::<crate::config::ExportView>::empty());
        assert(spec_exports_tail(pv.drop_first()) =~= Seq::<char>::empty());
        assert(spec_exports_tail(rem) =~= Seq::<char>::empty());
        assert(spec_exports_tail(pv) =~= spec_exports_tail(rem) + seq![','] + spec_json_of_export(
            v,
        ));
    } else {
        lemma_exports_tail_snoc(rem.drop_first(), v);
        assert(rem.push(v).drop_first() =~= rem.drop_first().push(v));
        assert(rem.push(v)[0] == rem[0]);
        assert(spec_exports_tail(rem.push(v)) =~= spec_exports_tail(rem) + seq![',']
            + spec_json_of_export(v));
    }
}

proof fn lemma_exports_csv_tail(es: Seq<crate::config::ExportView>)
    requires
        es.len() > 0,
    ensures
        spec_json_exports_csv(es) == spec_json_of_export(es[0]) + spec_exports_tail(
            es.drop_first(),
        ),
    decreases es.len(),
{
    if es.len() == 1 {
        assert(es.drop_first() =~= Seq::<crate::config::ExportView>::empty());
        assert(spec_json_exports_csv(es) =~= spec_json_of_export(es[0]) + spec_exports_tail(
            es.drop_first(),
        ));
    } else {
        let t = es.drop_last();
        lemma_exports_csv_tail(t);
        assert(t[0] == es[0]);
        assert(spec_json_exports_csv(es) == spec_json_exports_csv(t) + ","@ + spec_json_of_export(
            es.last(),
        ));
        reveal_strlit(",");
        assert(","@ =~= seq![',']);
        lemma_exports_tail_snoc(t.drop_first(), es.last());
        assert(es.drop_first() =~= t.drop_first().push(es.last()));
        assert(spec_json_exports_csv(es) =~= spec_json_of_export(es[0]) + spec_exports_tail(
            es.drop_first(),
        ));
    }
}

#[verifier::rlimit(100)]
#[verifier::spinoff_prover]
proof fn lemma_jexports_rest_rt(
    text: Seq<char>,
    pos: int,
    rem: Seq<crate::config::ExportView>,
    acc: Seq<crate::config::ExportView>,
)
    requires
        text_at(text, pos, spec_exports_tail(rem) + seq![']']),
    ensures
        spec_jexports_rest(text, pos, acc) == Some(
            (acc + rem, pos + spec_exports_tail(rem).len() + 1),
        ),
    decreases rem.len(),
{
    reveal_strlit("{");
    let whole = spec_exports_tail(rem) + seq![']'];
    if rem.len() == 0 {
        assert(whole[0] == ']');
        assert(text[pos + 0] == ']');
        assert(spec_skip_ws(text, pos) == pos);
        assert(acc + rem =~= acc);
    } else {
        let obj = spec_json_of_export(rem[0]);
        let tail = spec_exports_tail(rem.drop_first());
        assert(whole =~= seq![','] + (obj + (tail + seq![']'])));
        lemma_text_at_split(text, pos, seq![','], obj + (tail + seq![']']));
        lemma_text_at_split(text, pos + 1, obj, tail + seq![']']);
        assert(text[pos + 0] == whole[0] && whole[0] == ',');
        assert(spec_skip_ws(text, pos) == pos);
        lemma_jexport_rt(text, pos + 1, rem[0]);
        lemma_jexports_rest_rt(text, pos + 1 + obj.len(), rem.drop_first(), acc.push(rem[0]));
        assert(acc.push(rem[0]) + rem.drop_first() =~= acc + rem);
    }
}

#[verifier::rlimit(100)]
#[verifier::spinoff_prover]
proof fn lemma_jexports_rt(text: Seq<char>, pos: int, es: Seq<crate::config::ExportView>)
    requires
        text_at(text, pos, "["@ + spec_json_exports_csv(es) + "]"@),
    ensures
        spec_jexports(text, pos) == Some(
            (es, pos + ("["@ + spec_json_exports_csv(es) + "]"@).len()),
        ),
{
    reveal_strlit("[");
    reveal_strlit("]");
    reveal_strlit("{");
    let whole = "["@ + spec_json_exports_csv(es) + "]"@;
    assert(whole =~= "["@ + (spec_json_exports_csv(es) + "]"@));
    lemma_text_at_split(text, pos, "["@, spec_json_exports_csv(es) + "]"@);
    lemma_token_rt(text, pos, "["@);
    let p1 = pos + 1;
    if es.len() == 0 {
        assert((spec_json_exports_csv(es) + "]"@).len() == 1);
        assert((spec_json_exports_csv(es) + "]"@)[0] == ']');
        assert(text[p1 + 0] == (spec_json_exports_csv(es) + "]"@)[0]);
        assert(spec_skip_ws(text, p1) == p1);
        assert(Seq::<crate::config::ExportView>::empty() =~= es);
    } else {
        lemma_exports_csv_tail(es);
        let obj = spec_json_of_export(es[0]);
        let tail = spec_exports_tail(es.drop_first());
        assert(spec_json_exports_csv(es) + "]"@ =~= obj + (tail + seq![']']));
        lemma_text_at_split(text, p1, obj, tail + seq![']']);
        assert(obj[0] == '{');
        assert(text[p1 + 0] == obj[0]);
        assert(spec_skip_ws(text, p1) == p1);
        assert(text[p1] != ']');
        lemma_jexport_rt(text, p1, es[0]);
        lemma_jexports_rest_rt(text, p1 + obj.len(), es.drop_first(), seq![es[0]]);
        assert(seq![es[0]] + es.drop_first() =~= es);
    }
}

/// The comma-separated tail of an encoded import array.
pub open spec fn spec_imports_tail(rem: Seq<crate::config::ImportView>) -> Seq<char>
    decreases rem.len(),
{
    if rem.len() == 0 {
        Seq::empty()
    } else {
        seq![','] + spec_json_of_import(rem[0]) + spec_imports_tail(rem.drop_first())
    }
}

proof fn lemma_imports_tail_snoc(rem: Seq<crate::config::ImportView>, v: crate::config::ImportView)
    ensures
        spec_imports_tail(rem.push(v)) == spec_imports_tail(rem) + seq![','] + spec_json_of_import(
            v,
        ),
    decreases rem.len(),
{
    if rem.len() == 0 {
        let pv = rem.push(v);
        assert(pv[0] == v);
        assert(pv.drop_first() =~= Seq::<crate::config::ImportView>::empty());
        assert(spec_imports_tail(pv.drop_first()) =~= Seq::<char>::empty());
        assert(spec_imports_tail(rem) =~= Seq::<char>::empty());
        assert(spec_imports_tail(pv) =~= spec_imports_tail(rem) + seq![','] + spec_json_of_import(
            v,
        ));
    } else {
        lemma_imports_tail_snoc(rem.drop_first(), v);
        assert(rem.push(v).drop_first() =~= rem.drop_first().push(v));
        assert(rem.push(v)[0] == rem[0]);
        assert(spec_imports_tail(rem.push(v)) =~= spec_imports_tail(rem) + seq![',']
            + spec_json_of_import(v));
    }
}

proof fn lemma_imports_csv_tail(is: Seq<crate::config::ImportView>)
    requires
        is.len() > 0,
    ensures
        spec_json_imports_csv(is) == spec_json_of_import(is[0]) + spec_imports_tail(
            is.drop_first(),
        ),
    decreases is.len(),
{
    if is.len() == 1 {
        assert(is.drop_first() =~= Seq::<crate::config::ImportView>::empty());
        assert(spec_json_imports_csv(is) =~= spec_json_of_import(is[0]) + spec_imports_tail(
            is.drop_first(),
        ));
    } else {
        let t = is.drop_last();
        lemma_imports_csv_tail(t);
        assert(t[0] == is[0]);
        assert(spec_json_imports_csv(is) == spec_json_imports_csv(t) + ","@ + spec_json_of_import(
            is.last(),
        ));
        reveal_strlit(",");
        assert(","@ =~= seq![',']);
        lemma_imports_tail_snoc(t.drop_first(), is.last());
        assert(is.drop_first() =~= t.drop_first().push(is.last()));
        assert(spec_json_imports_csv(is) =~= spec_json_of_import(is[0]) + spec_imports_tail(
            is.drop_first(),
        ));
    }
}

#[verifier::rlimit(100)]
#[verifier::spinoff_prover]
proof fn lemma_jimports_rest_rt(
    text: Seq<char>,
    pos: int,
    rem: Seq<crate::config::ImportView>,
    acc: Seq<crate::config::ImportView>,
)
    requires
        text_at(text, pos, spec_imports_tail(rem) + seq![']']),
    ensures
        spec_jimports_rest(text, pos, acc) == Some(
            (acc + rem, pos + spec_imports_tail(rem).len() + 1),
        ),
    decreases rem.len(),
{
    reveal_strlit("{");
    let whole = spec_imports_tail(rem) + seq![']'];
    if rem.len() == 0 {
        assert(whole[0] == ']');
        assert(text[pos + 0] == ']');
        assert(spec_skip_ws(text, pos) == pos);
        assert(acc + rem =~= acc);
    } else {
        let obj = spec_json_of_import(rem[0]);
        let tail = spec_imports_tail(rem.drop_first());
        assert(whole =~= seq![','] + (obj + (tail + seq![']'])));
        lemma_text_at_split(text, pos, seq![','], obj + (tail + seq![']']));
        lemma_text_at_split(text, pos + 1, obj, tail + seq![']']);
        assert(text[pos + 0] == whole[0] && whole[0] == ',');
        assert(spec_skip_ws(text, pos) == pos);
        lemma_jimport_rt(text, pos + 1, rem[0]);
        lemma_jimports_rest_rt(text, pos + 1 + obj.len(), rem.drop_first(), acc.push(rem[0]));
        assert(acc.push(rem[0]) + rem.drop_first() =~= acc + rem);
    }
}

#[verifier::rlimit(100)]
#[verifier::spinoff_prover]
proof fn lemma_jimports_rt(text: Seq<char>, pos: int, is: Seq<crate::config::ImportView>)
    requires
        text_at(text, pos, "["@ + spec_json_imports_csv(is) + "]"@),
    ensures
        spec_jimports(text, pos) == Some(
            (is, pos + ("["@ + spec_json_imports_csv(is) + "]"@).len()),
        ),
{
    reveal_strlit("[");
    reveal_strlit("]");
    reveal_strlit("{");
    let whole = "["@ + spec_json_imports_csv(is) + "]"@;
    assert(whole =~= "["@ + (spec_json_imports_csv(is) + "]"@));
    lemma_text_at_split(text, pos, "["@, spec_json_imports_csv(is) + "]"@);
    lemma_token_rt(text, pos, "["@);
    let p1 = pos + 1;
    if is.len() == 0 {
        assert((spec_json_imports_csv(is) + "]"@).len() == 1);
        assert((spec_json_imports_csv(is) + "]"@)[0] == ']');
        assert(text[p1 + 0] == (spec_json_imports_csv(is) + "]"@)[0]);
        assert(spec_skip_ws(text, p1) == p1);
        assert(Seq::<crate::config::ImportView>::empty() =~= is);
    } else {
        lemma_imports_csv_tail(is);
        let obj = spec_json_of_import(is[0]);
        let tail = spec_imports_tail(is.drop_first());
        assert(spec_json_imports_csv(is) + "]"@ =~= obj + (tail + seq![']']));
        lemma_text_at_split(text, p1, obj, tail + seq![']']);
        assert(obj[0] == '{');
        assert(text[p1 + 0] == obj[0]);
        assert(spec_skip_ws(text, p1) == p1);
        assert(text[p1] != ']');
        lemma_jimport_rt(text, p1, is[0]);
        lemma_jimports_rest_rt(text, p1 + obj.len(), is.drop_first(), seq![is[0]]);
        assert(seq![is[0]] + is.drop_first() =~= is);
    }
}

/// Decoding an encoded configuration gives back exactly the configuration
/// it came from: the JSON form round-trips, for every configuration.
/// A token cannot stand at a position whose text differs from it.
proof fn lemma_jtoken_none(text: Seq<char>, pos: int, tok: Seq<char>, k: int)
    requires
        0 <= pos <= text.len(),
        spec_skip_ws(text, pos) == pos,
        0 <= k < tok.len(),
        pos + k < text.len(),
        text[pos + k] != tok[k],
    ensures
        spec_jtoken(text, pos, tok) is None,
{
    if text_at(text, pos, tok) {
        assert(text[pos + k] == tok[k]);
        assert(false);
    }
}

#[verifier::rlimit(100)]
#[verifier::spinoff_prover]
pub proof fn lemma_config_json_round_trip(c: crate::config::ConfigView)
    ensures
        spec_parse_config(spec_json_of_config(c)) == Some(c),
{
    reveal_strlit("{");
    reveal_strlit("}");
    reveal_strlit(":");
    reveal_strlit(",");
    reveal_strlit("\"temp_dir\"");
    reveal_strlit("\"secrets_dir\"");
    reveal_strlit("\"exports\"");
    reveal_strlit("\"imports\"");
    let text = spec_json_of_config(c);
    let a3 = spec_json_null_or_str(c.temp_dir);
    let a7 = spec_json_null_or_str(c.secrets_dir);
    let a11 = "["@ + spec_json_exports_csv(c.exports) + "]"@;
    let a15 = "["@ + spec_json_imports_csv(c.imports) + "]"@;
    let x1 = "{"@;
    let x2 = x1 + "\"temp_dir\""@;
    let x3 = x2 + ":"@;
    let x4 = x3 + a3;
    let x5 = x4 + ","@;
    let x6 = x5 + "\"secrets_dir\""@;
    let x7 = x6 + ":"@;
    let x8 = x7 + a7;
    let x9 = x8 + ","@;
    let x10 = x9 + "\"exports\""@;
    let x11 = x10 + ":"@;
    let x12 = x11 + a11;
    let x13 = x12 + ","@;
    let x14 = x13 + "\"imports\""@;
    let x15 = x14 + ":"@;
    let x16 = x15 + a15;
    assert(text == x16 + "}"@);
    assert(text_at(text, 0, text));
    lemma_text_at_split(text, 0, x16, "}"@);
    lemma_text_at_split(text, 0, x15, a15);
    lemma_text_at_split(text, 0, x14, ":"@);
    lemma_text_at_split(text, 0, x13, "\"imports\""@);
    lemma_text_at_split(text, 0, x12, ","@);
    lemma_text_at_split(text, 0, x11, a11);
    lemma_text_at_split(text, 0, x10, ":"@);
    lemma_text_at_split(text, 0, x9, "\"exports\""@);
    lemma_text_at_split(text, 0, x8, ","@);
    lemma_text_at_split(text, 0, x7, a7);
    lemma_text_at_split(text, 0, x6, ":"@);
    lemma_text_at_split(text, 0, x5, "\"secrets_dir\""@);
    lemma_text_at_split(text, 0, x4, ","@);
    lemma_text_at_split(text, 0, x3, a3);
    lemma_text_at_split(text, 0, x2, ":"@);
    lemma_text_at_split(text, 0, x1, "\"temp_dir\""@);
    lemma_token_rt(text, 0, "{"@);
    lemma_token_rt(text, x1.len() as int, "\"temp_dir\""@);
    lemma_token_rt(text, x2.len() as int, ":"@);
    lemma_null_or_str_rt(text, x3.len() as int, c.temp_dir);
    lemma_token_rt(text, x5.len() as int, "\"secrets_dir\""@);
    lemma_token_rt(text, x6.len() as int, ":"@);
    lemma_null_or_str_rt(text, x7.len() as int, c.secrets_dir);
    lemma_token_rt(text, x9.len() as int, "\"exports\""@);
    lemma_token_rt(text, x10.len() as int, ":"@);
    lemma_jexports_rt(text, x11.len() as int, c.exports);
    lemma_token_rt(text, x13.len() as int, "\"imports\""@);
    lemma_token_rt(text, x14.len() as int, ":"@);
    lemma_jimports_rt(text, x15.len() as int, c.imports);
    // The separators after each field.
    assert(text[x4.len() as int] == ',' && text[x8.len() as int] == ',' && text[x12.len() as int]
        == ',' && text[x16.len() as int] == '}');
    assert(spec_skip_ws(text, x4.len() as int) == x4.len() as int);
    assert(spec_skip_ws(text, x8.len() as int) == x8.len() as int);
    assert(spec_skip_ws(text, x12.len() as int) == x12.len() as int);
    assert(spec_skip_ws(text, x16.len() as int) == x16.len() as int);
    // At each later field, the keys already taken do not stand there.
    assert(text[x5.len() as int] == '"' && text[x5.len() as int + 1] == 's');
    assert(spec_skip_ws(text, x5.len() as int) == x5.len() as int);
    lemma_jtoken_none(text, x5.len() as int, "\"temp_dir\""@, 1);
    assert(text[x9.len() as int] == '"' && text[x9.len() as int + 1] == 'e');
    assert(spec_skip_ws(text, x9.len() as int) == x9.len() as int);
    lemma_jtoken_none(text, x9.len() as int, "\"temp_dir\""@, 1);
    lemma_jtoken_none(text, x9.len() as int, "\"secrets_dir\""@, 1);
    assert(text[x13.len() as int] == '"' && text[x13.len() as int + 1] == 'i');
    assert(spec_skip_ws(text, x13.len() as int) == x13.len() as int);
    lemma_jtoken_none(text, x13.len() as int, "\"temp_dir\""@, 1);
    lemma_jtoken_none(text, x13.len() as int, "\"secrets_dir\""@, 1);
    lemma_jtoken_none(text, x13.len() as int, "\"exports\""@, 1);
    // The field chain, one field at a time.
    let td: Option<Option<Seq<char>>> = Some(c.temp_dir);
    let sd: Option<Option<Seq<char>>> = Some(c.secrets_dir);
    let ges: Option<Seq<crate::config::ExportView>> = Some(c.exports);
    let gis: Option<Seq<crate::config::ImportView>> = Some(c.imports);
    assert(spec_config_fields(text, x1.len() as int, None, None, None, None) == spec_config_next(
        text,
        x4.len() as int,
        td,
        None,
        None,
        None,
    ));
    assert(spec_config_next(text, x4.len() as int, td, None, None, None) == spec_config_fields(
        text,
        x5.len() as int,
        td,
        None,
        None,
        None,
    ));
    assert(spec_config_fields(text, x5.len() as int, td, None, None, None) == spec_config_next(
        text,
        x8.len() as int,
        td,
        sd,
        None,
        None,
    ));
    assert(spec_config_next(text, x8.len() as int, td, sd, None, None) == spec_config_fields(
        text,
        x9.len() as int,
        td,
        sd,
        None,
        None,
    ));
    assert(spec_config_fields(text, x9.len() as int, td, sd, None, None) == spec_config_next(
        text,
        x12.len() as int,
        td,
        sd,
        ges,
        None,
    ));
    assert(spec_config_next(text, x12.len() as int, td, sd, ges, None) == spec_config_fields(
        text,
        x13.len() as int,
        td,
        sd,
        ges,
        None,
    ));
    assert(spec_config_fields(text, x13.len() as int, td, sd, ges, None) == spec_config_next(
        text,
        x16.len() as int,
        td,
        sd,
        ges,
        gis,
    ));
    assert(spec_config_next(text, x16.len() as int, td, sd, ges, gis) == Some(
        (
            crate::config::ConfigView {
                temp_dir: c.temp_dir,
                secrets_dir: c.secrets_dir,
                exports: c.exports,
                imports: c.imports,
            },
            x16.len() as int + 1,
        ),
    ));
    assert(x16.len() as int + 1 == text.len());
    assert(spec_skip_ws(text, text.len() as int) == text.len());
    assert(crate::config::ConfigView {
        temp_dir: c.temp_dir,
        secrets_dir: c.secrets_dir,
        exports: c.exports,
        imports: c.imports,
    } == c);
}

} // verus!
