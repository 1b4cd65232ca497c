//! Small helpers for building strings from ASCII bytes and numbers.

use vstd::prelude::*;

verus! {

/// A byte sequence read as characters, one character per byte.
pub open spec fn bytes_as_chars(b: Seq<u8>) -> Seq<char> {
    Seq::new(b.len(), |i: int| b[i] as char)
}

/// Relies on `String::push`: appends one character.
#[verifier::external_body]
pub fn push_char(s: &mut String, c: char)
    ensures
        final(s)@ == old(s)@.push(c),
{
    s.push(c);
}

/// Builds a string from ASCII bytes, one character per byte.
pub fn ascii_to_string(b: &Vec<u8>) -> (r: String)
    requires
        forall|i: int| 0 <= i < b@.len() ==> b@[i] < 128,
    ensures
        r@ == bytes_as_chars(b@),
{
    let mut s = String::new();
    let mut i: usize = 0;
    while i < b.len()
        invariant
            i <= b@.len(),
            s@ == bytes_as_chars(b@.take(i as int)),
        decreases b@.len() - i,
    {
        let c = b[i] as char;
        push_char(&mut s, c);
        proof {
            assert(s@ =~= bytes_as_chars(b@.take(i + 1)));
        }
        i = i + 1;
    }
    proof {
        assert(b@.take(b@.len() as int) =~= b@);
    }
    s
}

/// The lowercase hex digit of a value below 16.
pub open spec fn hex_digit(v: u32) -> char {
    if v < 10 {
        (('0' as u8) + v as u8) as char
    } else {
        (('a' as u8) + (v - 10) as u8) as char
    }
}

/// The decimal digits of `n`, most significant first.
pub open spec fn spec_decimal(n: nat) -> Seq<char>
    decreases n,
{
    if n < 10 {
        seq![(('0' as u8) + n as u8) as char]
    } else {
        spec_decimal(n / 10).push((('0' as u8) + (n % 10) as u8) as char)
    }
}

/// Renders a number up to 16 bits wide in decimal.
pub fn u16_to_string(n: u16) -> (r: String)
    ensures
        r@ == spec_decimal(n as nat),
{
    u32_to_string(n as u32)
}

/// Renders a 32-bit number in decimal.
pub fn u32_to_string(n: u32) -> (r: String)
    ensures
        r@ == spec_decimal(n as nat),
{
    let mut digits: Vec<char> = Vec::new();
    let mut m = n;
    proof {
        assert(spec_decimal(n as nat) =~= spec_decimal(n as nat) + digits@.reverse());
    }
    while m > 0
        invariant
            m > 0 ==> spec_decimal(n as nat) == spec_decimal(m as nat) + digits@.reverse(),
            m == 0 && digits@.len() > 0 ==> spec_decimal(n as nat) == digits@.reverse(),
            m == 0 && digits@.len() == 0 ==> n == 0,
        decreases m,
    {
        let ghost prev = digits@;
        let dch = (((m % 10) as u8) + ('0' as u8)) as char;
        digits.push(dch);
        proof {
            assert((prev.push(dch)).reverse() =~= seq![dch] + prev.reverse());
        }
        m = m / 10;
        proof {
            if m == 0 {
                assert(spec_decimal(n as nat) =~= digits@.reverse());
            } else {
                assert(spec_decimal(n as nat) =~= spec_decimal(m as nat) + digits@.reverse());
            }
        }
    }
    if digits.len() == 0 {
        proof {
            reveal_with_fuel(spec_decimal, 2);
        }
        let mut s = String::new();
        push_char(&mut s, '0');
        proof {
            assert(s@ =~= spec_decimal(0nat));
        }
        return s;
    }
    let mut s = String::new();
    let mut i: usize = digits.len();
    while i > 0
        invariant
            i <= digits@.len(),
            digits@.len() > 0 && spec_decimal(n as nat) == digits@.reverse(),
            s@ == digits@.reverse().take((digits@.len() - i) as int),
        decreases i,
    {
        i = i - 1;
        let c = digits[i];
        push_char(&mut s, c);
        proof {
            assert(s@ =~= digits@.reverse().take((digits@.len() - i) as int));
        }
    }
    proof {
        assert(digits@.reverse().take(digits@.len() as int) =~= digits@.reverse());
    }
    s
}

} // verus!
