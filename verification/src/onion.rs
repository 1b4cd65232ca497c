//! v3 onion addresses and service keys.
//!
//! A v3 onion address is the base32 form of 35 bytes: a 32-byte ed25519
//! public key, a 2-byte checksum, and the version byte 3. The checksum is
//! the first two bytes of SHA3-256 over `".onion checksum" || public key ||
//! version`. A service key is the 64-byte expanded form of an ed25519
//! secret key; its public key, and so its address, is a function of the
//! key's first half.

use vstd::prelude::*;

use sha3::Digest as _;

verus! {

use crate::addr::spec_plain_port;
use crate::addr::parse_plain_port_at;
use crate::parse::spec_digit_value;

/// The length of an onion address in base32 characters.
pub const ONION_ADDR_LEN: usize = 56;

/// The value of one base32 character: letters of either case, then the
/// digits 2 through 7.
pub open spec fn b32_char_val(c: char) -> Option<u8> {
    if 'a' <= c && c <= 'z' {
        Some((c as u8 - 'a' as u8) as u8)
    } else if 'A' <= c && c <= 'Z' {
        Some((c as u8 - 'A' as u8) as u8)
    } else if '2' <= c && c <= '7' {
        Some((26 + (c as u8 - '2' as u8)) as u8)
    } else {
        None
    }
}

/// The lowercase base32 character of a 5-bit value.
pub open spec fn b32_char(v: u8) -> char {
    if v < 26 {
        (('a' as u8) + v) as char
    } else {
        (('2' as u8) + (v - 26)) as char
    }
}

/// Returns the value of one base32 character.
pub fn base32_char_val(c: char) -> (r: Option<u8>)
    ensures
        r == b32_char_val(c),
{
    if 'a' <= c && c <= 'z' {
        Some(c as u8 - 'a' as u8)
    } else if 'A' <= c && c <= 'Z' {
        Some(c as u8 - 'A' as u8)
    } else if '2' <= c && c <= '7' {
        Some(26 + (c as u8 - '2' as u8))
    } else {
        None
    }
}

/// Five bytes from eight 5-bit values, most significant bits first.
pub open spec fn b32_group_bytes(v: Seq<u8>) -> Seq<u8>
    recommends
        v.len() == 8,
{
    seq![
        (v[0] << 3) | (v[1] >> 2),
        ((v[1] & 3) << 6) | (v[2] << 1) | (v[3] >> 4),
        ((v[3] & 15) << 4) | (v[4] >> 1),
        ((v[4] & 1) << 7) | (v[5] << 2) | (v[6] >> 3),
        ((v[6] & 7) << 5) | v[7],
    ]
}

/// Eight 5-bit values from five bytes, most significant bits first.
pub open spec fn b32_group_vals(b: Seq<u8>) -> Seq<u8>
    recommends
        b.len() == 5,
{
    seq![
        b[0] >> 3,
        ((b[0] & 7) << 2) | (b[1] >> 6),
        (b[1] >> 1) & 31,
        ((b[1] & 1) << 4) | (b[2] >> 4),
        ((b[2] & 15) << 1) | (b[3] >> 7),
        (b[3] >> 2) & 31,
        ((b[3] & 3) << 3) | (b[4] >> 5),
        b[4] & 31,
    ]
}

/// Base32 decoding of a character sequence whose length is a multiple of
/// eight, or none when a character is outside the alphabet.
pub open spec fn spec_b32_decode(s: Seq<char>) -> Option<Seq<u8>>
    decreases s.len(),
{
    if s.len() == 0 {
        Some(Seq::empty())
    } else if s.len() < 8 {
        None
    } else {
        let g = Seq::new(8, |i: int| b32_char_val(s[i]));
        if forall|i: int| 0 <= i < 8 ==> (#[trigger] g[i]) is Some {
            match spec_b32_decode(s.skip(8)) {
                Some(rest) => Some(b32_group_bytes(Seq::new(8, |i: int| g[i]->0)) + rest),
                None => None,
            }
        } else {
            None
        }
    }
}

/// Lowercase base32 encoding of a byte sequence whose length is a multiple
/// of five.
pub open spec fn spec_b32_encode(b: Seq<u8>) -> Seq<char>
    decreases b.len(),
{
    if b.len() < 5 {
        Seq::empty()
    } else {
        Seq::new(8, |i: int| b32_char(b32_group_vals(b.take(5))[i])) + spec_b32_encode(b.skip(5))
    }
}

/// Decodes base32 text whose length is a multiple of eight.
pub fn base32_decode(s: &str) -> (r: Option<Vec<u8>>)
    ensures
        match spec_b32_decode(s@) {
            Some(b) => r matches Some(v) && v@ == b,
            None => r is None,
        },
{
    let len = s.unicode_len();
    if len % 8 != 0 {
        proof {
            if s@.len() > 0 {
                assert(spec_b32_decode(s@) is None) by {
                    lemma_b32_decode_len_multiple(s@);
                }
            }
        }
        if len == 0 {
            let empty_out: Vec<u8> = Vec::new();
            proof {
                assert(empty_out@ =~= Seq::<u8>::empty());
            }
            return Some(empty_out);
        }
        return None;
    }
    let mut pos: usize = len;
    let ghost whole = s@;
    // Decode groups from the back, so each step prepends one decoded group
    // to an already decoded suffix.
    let mut suffix: Vec<u8> = Vec::new();
    proof {
        assert(whole.skip(len as int) =~= Seq::<char>::empty());
    }
    loop
        invariant
            pos % 8 == 0,
            pos <= len,
            len == whole.len(),
            whole == s@,
            spec_b32_decode(whole.skip(pos as int)) == Some(suffix@),
        decreases pos,
    {
        if pos == 0 {
            proof {
                assert(whole.skip(0) =~= whole);
            }
            return Some(suffix);
        }
        let gstart = pos - 8;
        let mut vals: [u8; 8] = [0, 0, 0, 0, 0, 0, 0, 0];
        let mut gi: usize = 0;
        let mut bad: bool = false;
        while gi < 8
            invariant
                gi <= 8,
                gstart + 8 <= whole.len(),
                gstart + 8 <= len,
                len == whole.len(),
                whole == s@,
                !bad ==> (forall|i: int|
                    0 <= i < gi ==> b32_char_val(whole[gstart + i]) == Some(#[trigger] vals@[i])),
                bad ==> (exists|i: int|
                    0 <= i < gi && b32_char_val(#[trigger] whole[gstart + i]) is None),
            decreases 8 - gi,
        {
            let c = s.get_char(gstart + gi);
            match base32_char_val(c) {
                Some(v) => {
                    vals[gi] = v;
                },
                None => {
                    bad = true;
                },
            }
            gi = gi + 1;
        }
        let ghost grp = whole.skip(gstart as int);
        proof {
            assert(grp.len() >= 8);
            assert(forall|i: int| 0 <= i < 8 ==> grp[i] == whole[gstart + i]);
        }
        if bad {
            proof {
                lemma_b32_decode_bad_char(whole, gstart as int);
            }
            return None;
        }
        let b0 = (vals[0] << 3u8) | (vals[1] >> 2u8);
        let b1 = ((vals[1] & 3) << 6u8) | (vals[2] << 1u8) | (vals[3] >> 4u8);
        let b2 = ((vals[3] & 15) << 4u8) | (vals[4] >> 1u8);
        let b3 = ((vals[4] & 1) << 7u8) | (vals[5] << 2u8) | (vals[6] >> 3u8);
        let b4 = ((vals[6] & 7) << 5u8) | vals[7];
        let mut next: Vec<u8> = Vec::new();
        next.push(b0);
        next.push(b1);
        next.push(b2);
        next.push(b3);
        next.push(b4);
        let mut si: usize = 0;
        while si < suffix.len()
            invariant
                si <= suffix@.len(),
                next@ == seq![b0, b1, b2, b3, b4] + suffix@.take(si as int),
            decreases suffix@.len() - si,
        {
            let x = suffix[si];
            next.push(x);
            proof {
                assert(next@ =~= seq![b0, b1, b2, b3, b4] + suffix@.take(si + 1));
            }
            si = si + 1;
        }
        proof {
            assert(suffix@.take(suffix@.len() as int) =~= suffix@);
            let g = Seq::new(8, |i: int| b32_char_val(grp[i]));
            assert(forall|i: int| 0 <= i < 8 ==> (#[trigger] g[i]) == Some(vals@[i]));
            let gv = Seq::new(8, |i: int| g[i]->0);
            assert(gv =~= vals@);
            assert(grp.skip(8) =~= whole.skip(pos as int));
            assert(b32_group_bytes(vals@) =~= seq![b0, b1, b2, b3, b4]);
            assert(next@ =~= b32_group_bytes(gv) + suffix@);
        }
        suffix = next;
        pos = gstart;
    }
}

/// A sequence whose length is not a multiple of eight never decodes.
proof fn lemma_b32_decode_len_multiple(s: Seq<char>)
    requires
        s.len() % 8 != 0,
    ensures
        spec_b32_decode(s) is None,
    decreases s.len(),
{
    if s.len() >= 8 {
        lemma_b32_decode_len_multiple(s.skip(8));
    }
}

/// A bad character within any whole group stops decoding.
proof fn lemma_b32_decode_bad_char(whole: Seq<char>, gstart: int)
    requires
        0 <= gstart,
        gstart % 8 == 0,
        gstart + 8 <= whole.len(),
        exists|i: int| 0 <= i < 8 && b32_char_val(#[trigger] whole[gstart + i]) is None,
    ensures
        spec_b32_decode(whole) is None,
    decreases gstart,
{
    if gstart == 0 {
        let i = choose|i: int| 0 <= i < 8 && b32_char_val(#[trigger] whole[gstart + i]) is None;
        let g = Seq::new(8, |k: int| b32_char_val(whole[k]));
        assert(gstart + i == i);
        assert(b32_char_val(whole[i]) is None);
        assert(g[i] == b32_char_val(whole[i]));
        assert(g[i] is None);
        if spec_b32_decode(whole) is Some {
            let gg = Seq::new(8, |k: int| b32_char_val(whole[k]));
            assert(forall|k: int| 0 <= k < 8 ==> (#[trigger] gg[k]) is Some);
            assert(false);
        }
    } else {
        let t = whole.skip(8);
        assert(forall|i: int|
            0 <= i < 8 ==> #[trigger] t[gstart - 8 + i] == whole[gstart + i]);
        let i = choose|i: int| 0 <= i < 8 && b32_char_val(#[trigger] whole[gstart + i]) is None;
        assert(b32_char_val(t[gstart - 8 + i]) is None);
        lemma_b32_decode_bad_char(t, gstart - 8);
        if spec_b32_decode(whole) is Some {
            assert(spec_b32_decode(whole.skip(8)) is Some);
            assert(false);
        }
    }
}

/// Encodes bytes whose length is a multiple of five as lowercase base32.
pub fn base32_encode(b: &Vec<u8>) -> (r: String)
    requires
        b@.len() % 5 == 0,
    ensures
        r@ == spec_b32_encode(b@),
{
    let mut s = String::new();
    let mut pos: usize = 0;
    let ghost whole = b@;
    proof {
        assert(whole.skip(0) =~= whole);
        assert(s@ + spec_b32_encode(whole) =~= spec_b32_encode(whole));
    }
    loop
        invariant
            pos % 5 == 0,
            pos <= whole.len(),
            whole == b@,
            s@ + spec_b32_encode(whole.skip(pos as int)) == spec_b32_encode(whole),
            whole.len() % 5 == 0,
        decreases whole.len() - pos,
    {
        if pos == b.len() {
            proof {
                assert(whole.skip(pos as int).len() == 0);
                assert(s@ + spec_b32_encode(whole.skip(pos as int)) =~= s@);
            }
            return s;
        }
        let q0 = b[pos];
        let q1 = b[pos + 1];
        let q2 = b[pos + 2];
        let q3 = b[pos + 3];
        let q4 = b[pos + 4];
        let v0 = q0 >> 3u8;
        let v1 = ((q0 & 7) << 2u8) | (q1 >> 6u8);
        let v2 = (q1 >> 1u8) & 31;
        let v3 = ((q1 & 1) << 4u8) | (q2 >> 4u8);
        let v4 = ((q2 & 15) << 1u8) | (q3 >> 7u8);
        let v5 = (q3 >> 2u8) & 31;
        let v6 = ((q3 & 3) << 3u8) | (q4 >> 5u8);
        let v7 = q4 & 31;
        let ghost rem = whole.skip(pos as int);
        proof {
            assert(v0 < 32 && v1 < 32 && v2 < 32 && v3 < 32 && v4 < 32 && v5 < 32 && v6 < 32
                && v7 < 32) by (bit_vector)
                requires
                    v0 == q0 >> 3u8 && v1 == (((q0 & 7) << 2u8) | (q1 >> 6u8)) && v2 == ((q1
                        >> 1u8) & 31) && v3 == (((q1 & 1) << 4u8) | (q2 >> 4u8)) && v4 == (((q2
                        & 15) << 1u8) | (q3 >> 7u8)) && v5 == ((q3 >> 2u8) & 31) && v6 == (((q3
                        & 3) << 3u8) | (q4 >> 5u8)) && v7 == (q4 & 31),
            ;
            assert(rem.take(5) =~= seq![q0, q1, q2, q3, q4]);
            assert(b32_group_vals(rem.take(5)) =~= seq![v0, v1, v2, v3, v4, v5, v6, v7]);
            assert(rem.skip(5) =~= whole.skip(pos + 5));
        }
        push_b32_char(&mut s, v0);
        push_b32_char(&mut s, v1);
        push_b32_char(&mut s, v2);
        push_b32_char(&mut s, v3);
        push_b32_char(&mut s, v4);
        push_b32_char(&mut s, v5);
        push_b32_char(&mut s, v6);
        push_b32_char(&mut s, v7);
        proof {
            assert(Seq::new(8, |i: int| b32_char(b32_group_vals(rem.take(5))[i])) =~= seq![
                b32_char(v0),
                b32_char(v1),
                b32_char(v2),
                b32_char(v3),
                b32_char(v4),
                b32_char(v5),
                b32_char(v6),
                b32_char(v7),
            ]);
        }
        pos = pos + 5;
    }
}

/// Appends the base32 character of a 5-bit value.
fn push_b32_char(s: &mut String, v: u8)
    requires
        v < 32,
    ensures
        final(s)@ == old(s)@.push(b32_char(v)),
{
    let c = if v < 26 {
        (('a' as u8) + v) as char
    } else {
        (('2' as u8) + (v - 26)) as char
    };
    crate::text::push_char(s, c);
}


/// A 5-bit value's base32 character is in the alphabet.
proof fn lemma_b32_char_valid(v: u8)
    requires
        v < 32,
    ensures
        b32_char_val(b32_char(v)) is Some,
{
    if v < 26 {
        let c = (('a' as u8) + v) as char;
        assert('a' <= c && c <= 'z');
    } else {
        let c = (('2' as u8) + (v - 26)) as char;
        assert('2' <= c && c <= '7');
    }
}

/// Encoding yields eight alphabet characters for every five bytes.
pub proof fn lemma_b32_encode_props(b: Seq<u8>)
    requires
        b.len() % 5 == 0,
    ensures
        spec_b32_encode(b).len() == b.len() / 5 * 8,
        forall|i: int|
            0 <= i < spec_b32_encode(b).len() ==> b32_char_val(
                #[trigger] spec_b32_encode(b)[i],
            ) is Some,
    decreases b.len(),
{
    if b.len() >= 5 {
        assert(b.skip(5).len() % 5 == 0);
        lemma_b32_encode_props(b.skip(5));
        let g5 = b.take(5);
        let q0 = g5[0];
        let q1 = g5[1];
        let q2 = g5[2];
        let q3 = g5[3];
        let q4 = g5[4];
        let gv = b32_group_vals(g5);
        let v0 = gv[0];
        let v1 = gv[1];
        let v2 = gv[2];
        let v3 = gv[3];
        let v4 = gv[4];
        let v5 = gv[5];
        let v6 = gv[6];
        let v7 = gv[7];
        assert(v0 < 32 && v1 < 32 && v2 < 32 && v3 < 32 && v4 < 32 && v5 < 32 && v6 < 32 && v7
            < 32) by (bit_vector)
            requires
                v0 == q0 >> 3u8 && v1 == (((q0 & 7) << 2u8) | (q1 >> 6u8)) && v2 == ((q1 >> 1u8)
                    & 31) && v3 == (((q1 & 1) << 4u8) | (q2 >> 4u8)) && v4 == (((q2 & 15) << 1u8)
                    | (q3 >> 7u8)) && v5 == ((q3 >> 2u8) & 31) && v6 == (((q3 & 3) << 3u8) | (q4
                    >> 5u8)) && v7 == (q4 & 31),
        ;
        assert(forall|i: int| 0 <= i < 8 ==> #[trigger] gv[i] < 32) by {
            assert(gv[0] == v0 && gv[1] == v1 && gv[2] == v2 && gv[3] == v3 && gv[4] == v4
                && gv[5] == v5 && gv[6] == v6 && gv[7] == v7);
        }
        let head = Seq::new(8, |i: int| b32_char(gv[i]));
        assert forall|i: int| 0 <= i < 8 implies b32_char_val(#[trigger] head[i]) is Some by {
            lemma_b32_char_valid(gv[i]);
        }
        assert(spec_b32_encode(b) == head + spec_b32_encode(b.skip(5)));
        assert(b.skip(5).len() / 5 * 8 + 8 == b.len() / 5 * 8);
        assert forall|i: int|
            0 <= i < spec_b32_encode(b).len() implies b32_char_val(
            #[trigger] spec_b32_encode(b)[i],
        ) is Some by {
            if i < 8 {
                assert(spec_b32_encode(b)[i] == head[i]);
            } else {
                assert(spec_b32_encode(b)[i] == spec_b32_encode(b.skip(5))[i - 8]);
            }
        }
    }
}

/// The SHA3-256 digest of a byte sequence.
pub uninterp spec fn sha3_256_of(b: Seq<u8>) -> Seq<u8>;

/// Relies on sha3's SHA3-256: the 32-byte digest is a function of the
/// input bytes alone.
#[verifier::external_body]
fn sha3_256(b: &Vec<u8>) -> (r: Vec<u8>)
    ensures
        r@ == sha3_256_of(b@),
        r@.len() == 32,
{
    sha3::Sha3_256::digest(b.as_slice()).to_vec()
}

/// The SHA-512 digest of a byte sequence.
pub uninterp spec fn sha512_of(b: Seq<u8>) -> Seq<u8>;

/// Relies on sha2's SHA-512: the 64-byte digest is a function of the input
/// bytes alone.
#[verifier::external_body]
fn sha512(b: &Vec<u8>) -> (r: Vec<u8>)
    ensures
        r@ == sha512_of(b@),
        r@.len() == 64,
{
    sha2::Sha512::digest(b.as_slice()).to_vec()
}

/// The compressed ed25519 public key of a clamped 32-byte scalar.
pub uninterp spec fn ed25519_public_of(scalar: Seq<u8>) -> Seq<u8>;

/// Relies on curve25519's clamped base-point multiplication: the
/// compressed public key is a function of the scalar bytes alone.
#[verifier::external_body]
fn ed25519_public(scalar: &Vec<u8>) -> (r: Vec<u8>)
    requires
        scalar@.len() == 32,
    ensures
        r@ == ed25519_public_of(scalar@),
        r@.len() == 32,
{
    let mut b = [0u8; 32];
    b.copy_from_slice(scalar.as_slice());
    curve25519_dalek::edwards::EdwardsPoint::mul_base_clamped(b).compress().to_bytes().to_vec()
}

/// Relies on rand's `OsRng::fill_bytes`, the operating-system entropy
/// source; nothing is promised of the bytes beyond their number.
#[verifier::external_body]
fn random_seed() -> (r: Vec<u8>)
    ensures
        r@.len() == 32,
{
    let mut b = [0u8; 32];
    rand::RngCore::fill_bytes(&mut rand::rngs::OsRng, &mut b);
    b.to_vec()
}

/// A 64-byte expanded key with the scalar half clamped: the low three bits
/// of the first byte clear, the top bit of the last scalar byte clear, and
/// the next bit set.
pub open spec fn clamped_key(k: Seq<u8>) -> bool {
    k.len() == 64 && k[0] & 7 == 0 && k[31] & 128 == 0 && k[31] & 64 == 64
}

/// Generates a fresh v3 service key: 64 bytes, the SHA-512 expansion of a
/// random seed with the scalar half clamped.
pub fn generate_service_key() -> (r: Vec<u8>)
    ensures
        clamped_key(r@),
{
    let seed = random_seed();
    let mut h = sha512(&seed);
    let b0 = h[0];
    h[0] = b0 & 248;
    let b31 = h[31];
    h[31] = (b31 & 63) | 64;
    proof {
        let x0 = h@[0];
        let x31 = h@[31];
        assert(x0 & 7 == 0 && x31 & 128 == 0 && x31 & 64 == 64) by (bit_vector)
            requires
                x0 == b0 & 248 && x31 == (b31 & 63) | 64,
        ;
    }
    h
}

/// The bytes of the fixed checksum prefix `".onion checksum"`.
pub open spec fn checksum_prefix() -> Seq<u8> {
    seq![46u8, 111, 110, 105, 111, 110, 32, 99, 104, 101, 99, 107, 115, 117, 109]
}

/// What the checksum of a v3 address is computed over: the fixed prefix,
/// the public key, and the version byte.
pub open spec fn onion_checksum_input(pubkey: Seq<u8>) -> Seq<u8> {
    checksum_prefix() + pubkey + seq![3u8]
}

/// The 35 bytes behind a v3 address: the public key, the first two
/// checksum bytes, and the version byte.
pub open spec fn onion_addr_bytes(pubkey: Seq<u8>) -> Seq<u8> {
    pubkey + sha3_256_of(onion_checksum_input(pubkey)).take(2) + seq![3u8]
}

/// The 35 bytes are a well-formed v3 address body: version 3 and a
/// matching checksum.
pub open spec fn onion_addr_valid(b: Seq<u8>) -> bool {
    b.len() == 35 && b[34] == 3 && b.subrange(32, 34) == sha3_256_of(
        onion_checksum_input(b.take(32)),
    ).take(2)
}

/// A v3 onion address, held in its canonical lowercase base32 form.
#[derive(Debug, PartialEq, Eq)]
pub struct OnionAddrV3 {
    addr: String,
}

impl View for OnionAddrV3 {
    type V = Seq<char>;

    closed spec fn view(&self) -> Seq<char> {
        self.addr@
    }
}

impl OnionAddrV3 {
    /// The address without its `.onion` suffix.
    pub fn without_dot_onion(&self) -> (r: &str)
        ensures
            r@ == self@,
    {
        self.addr.as_str()
    }

    /// The address with its `.onion` suffix.
    pub fn with_dot_onion(&self) -> (r: String)
        ensures
            r@ == self@ + ".onion"@,
    {
        let mut s = self.addr.clone();
        s.append(".onion");
        s
    }
}

/// Builds the checksum input for a public key.
fn checksum_input(pubkey: &Vec<u8>) -> (r: Vec<u8>)
    requires
        pubkey@.len() == 32,
    ensures
        r@ == onion_checksum_input(pubkey@),
{
    let mut v: Vec<u8> = Vec::new();
    v.push(46);
    v.push(111);
    v.push(110);
    v.push(105);
    v.push(111);
    v.push(110);
    v.push(32);
    v.push(99);
    v.push(104);
    v.push(101);
    v.push(99);
    v.push(107);
    v.push(115);
    v.push(117);
    v.push(109);
    let mut i: usize = 0;
    while i < pubkey.len()
        invariant
            i <= pubkey@.len(),
            v@ == checksum_prefix() + pubkey@.take(i as int),
        decreases pubkey@.len() - i,
    {
        let x = pubkey[i];
        v.push(x);
        proof {
            assert(v@ =~= checksum_prefix() + pubkey@.take(i + 1));
        }
        i = i + 1;
    }
    v.push(3);
    proof {
        assert(pubkey@.take(pubkey@.len() as int) =~= pubkey@);
        assert(v@ =~= onion_checksum_input(pubkey@));
    }
    v
}

/// The canonical textual address of a v3 public key.
pub open spec fn spec_onion_address(pubkey: Seq<u8>) -> Seq<char> {
    spec_b32_encode(onion_addr_bytes(pubkey))
}

/// The address that a 64-byte service key publishes: fixed by the key's
/// scalar half alone, so one key always yields one address.
pub open spec fn spec_address_of_key(key: Seq<u8>) -> Seq<char> {
    spec_onion_address(ed25519_public_of(key.take(32)))
}

/// Derives the onion address of a 64-byte service key.
pub fn derive_onion_address(key: &Vec<u8>) -> (r: OnionAddrV3)
    requires
        key@.len() == 64,
    ensures
        r@ == spec_address_of_key(key@),
        r@.len() == 56,
        forall|i: int| 0 <= i < r@.len() ==> b32_char_val(#[trigger] r@[i]) is Some,
{
    let mut scalar: Vec<u8> = Vec::new();
    let mut i: usize = 0;
    while i < 32
        invariant
            i <= 32,
            key@.len() == 64,
            scalar@ == key@.take(i as int),
        decreases 32 - i,
    {
        let x = key[i];
        scalar.push(x);
        proof {
            assert(scalar@ =~= key@.take(i + 1));
        }
        i = i + 1;
    }
    let pubkey = ed25519_public(&scalar);
    let input = checksum_input(&pubkey);
    let digest = sha3_256(&input);
    let mut body = pubkey;
    let c0 = digest[0];
    let c1 = digest[1];
    body.push(c0);
    body.push(c1);
    body.push(3);
    proof {
        assert(digest@.take(2) =~= seq![c0, c1]);
        assert(body@ =~= onion_addr_bytes(ed25519_public_of(key@.take(32))));
        lemma_b32_encode_props(body@);
    }
    let addr = base32_encode(&body);
    OnionAddrV3 { addr }
}

/// A key fixes its address: equal keys always publish equal onion
/// addresses, across exports and across runs.
pub proof fn lemma_key_fixes_address(k1: Seq<u8>, k2: Seq<u8>)
    requires
        k1 == k2,
    ensures
        spec_address_of_key(k1) == spec_address_of_key(k2),
{
}

/// Why an onion-address string was rejected.
#[derive(Debug, PartialEq, Eq, Structural, Clone, Copy)]
pub enum OnionAddrError {
    /// The base32 part is not exactly 56 characters.
    BadLength,
    /// The base32 part holds a character outside the alphabet.
    BadAlphabet,
    /// What follows the base32 part is neither `.onion` nor a port.
    BadFormat,
    /// The port is empty, not decimal, or over 65535.
    BadPort,
    /// The decoded version byte is not 3.
    BadVersion,
    /// The decoded checksum does not match the public key.
    BadChecksum,
}

/// Whether the failure lies in v3 address decoding itself — length,
/// alphabet, checksum or version — rather than in the written form around
/// the address.
pub open spec fn is_v3_decode_error(oe: OnionAddrError) -> bool {
    oe is BadLength || oe is BadAlphabet || oe is BadChecksum || oe is BadVersion
}

impl OnionAddrError {
    /// The error rendered as a message.
    pub fn message(&self) -> (r: String)
        ensures
            match self {
                OnionAddrError::BadLength => r@ == "onion address has wrong length"@,
                OnionAddrError::BadAlphabet => r@ == "onion address is not base32"@,
                OnionAddrError::BadFormat => r@ == "onion address has a malformed suffix"@,
                OnionAddrError::BadPort => r@ == "onion address has an invalid port"@,
                OnionAddrError::BadVersion => r@ == "onion address has an unsupported version"@,
                OnionAddrError::BadChecksum => r@ == "onion address has a bad checksum"@,
            },
    {
        match self {
            OnionAddrError::BadLength => String::from_str("onion address has wrong length"),
            OnionAddrError::BadAlphabet => String::from_str("onion address is not base32"),
            OnionAddrError::BadFormat => String::from_str("onion address has a malformed suffix"),
            OnionAddrError::BadPort => String::from_str("onion address has an invalid port"),
            OnionAddrError::BadVersion => String::from_str(
                "onion address has an unsupported version",
            ),
            OnionAddrError::BadChecksum => String::from_str("onion address has a bad checksum"),
        }
    }
}


/// Neither a dot nor a colon: still within the base32 part.
pub open spec fn not_delim(c: char) -> bool {
    c != '.' && c != ':'
}

/// The length of the base32 part: everything before the first dot or
/// colon.
pub open spec fn onion_part_len(s: Seq<char>) -> nat
    decreases s.len(),
{
    if s.len() == 0 || !not_delim(s[0]) {
        0
    } else {
        1 + onion_part_len(s.drop_first())
    }
}

proof fn lemma_onion_part_len_from_scan(s: Seq<char>, k: nat)
    requires
        k <= s.len(),
        forall|j: int| 0 <= j < k ==> not_delim(#[trigger] s[j]),
        k < s.len() ==> !not_delim(s[k as int]),
    ensures
        onion_part_len(s) == k,
    decreases k,
{
    if k > 0 {
        let t = s.drop_first();
        assert(forall|j: int| 0 <= j < k - 1 ==> #[trigger] t[j] == s[j + 1]);
        lemma_onion_part_len_from_scan(t, (k - 1) as nat);
    }
}

/// The port of an address suffix, or why it is rejected.
pub open spec fn spec_port_digits(d: Seq<char>) -> Result<u16, OnionAddrError> {
    match spec_plain_port(d) {
        Some(p) => Ok(p),
        None => Err(OnionAddrError::BadPort),
    }
}

/// What may follow the base32 part: nothing, `.onion`, `:port`, or
/// `.onion:port`; an omitted port defaults to 80.
pub open spec fn spec_onion_suffix(rest: Seq<char>) -> Result<u16, OnionAddrError> {
    if rest.len() == 0 {
        Ok(80u16)
    } else if rest[0] == '.' {
        if rest.len() >= 6 && rest.take(6) == crate::parse::onion_tag() {
            let r2 = rest.skip(6);
            if r2.len() == 0 {
                Ok(80u16)
            } else if r2[0] == ':' {
                spec_port_digits(r2.skip(1))
            } else {
                Err(OnionAddrError::BadFormat)
            }
        } else {
            Err(OnionAddrError::BadFormat)
        }
    } else if rest[0] == ':' {
        spec_port_digits(rest.skip(1))
    } else {
        Err(OnionAddrError::BadFormat)
    }
}

/// Parsing an onion address: a 56-character base32 part naming a version-3
/// key with a valid checksum, an optional `.onion`, and an optional port
/// defaulting to 80. The address comes back in canonical lowercase form.
pub open spec fn spec_parse_onion_addr(s: Seq<char>) -> Result<(Seq<char>, u16), OnionAddrError> {
    if onion_part_len(s) != 56 {
        Err(OnionAddrError::BadLength)
    } else {
        let part = s.take(56);
        match spec_onion_suffix(s.skip(56)) {
            Err(e) => Err(e),
            Ok(port) => match spec_b32_decode(part) {
                None => Err(OnionAddrError::BadAlphabet),
                Some(b) => {
                    if b[34] != 3 {
                        Err(OnionAddrError::BadVersion)
                    } else if b.subrange(32, 34) != sha3_256_of(
                        onion_checksum_input(b.take(32)),
                    ).take(2) {
                        Err(OnionAddrError::BadChecksum)
                    } else {
                        Ok((spec_b32_encode(b), port))
                    }
                },
            },
        }
    }
}

/// Decoded base32 holds five bytes for every eight characters.
proof fn lemma_b32_decode_len(s: Seq<char>, b: Seq<u8>)
    requires
        spec_b32_decode(s) == Some(b),
    ensures
        b.len() * 8 == s.len() * 5,
    decreases s.len(),
{
    if s.len() >= 8 {
        let rest = choose|rest: Seq<u8>| spec_b32_decode(s.skip(8)) == Some(rest);
        assert(spec_b32_decode(s.skip(8)) is Some);
        lemma_b32_decode_len(s.skip(8), spec_b32_decode(s.skip(8))->0);
    }
}

/// The base32 part runs to the first dot or colon.
fn scan_onion_part(input: &str) -> (k: usize)
    ensures
        k == onion_part_len(input@),
        k <= input@.len(),
{
    let len = input.unicode_len();
    let mut plen: usize = 0;
    loop
        invariant
            plen <= len,
            len == input@.len(),
            forall|j: int| 0 <= j < plen ==> not_delim(#[trigger] input@[j]),
        decreases len - plen,
    {
        if plen == len {
            proof {
                lemma_onion_part_len_from_scan(input@, plen as nat);
            }
            return plen;
        }
        let c = input.get_char(plen);
        if c == '.' || c == ':' {
            proof {
                lemma_onion_part_len_from_scan(input@, plen as nat);
            }
            return plen;
        }
        plen = plen + 1;
    }
}

/// Parses an onion address with an optional `.onion` suffix and an
/// optional port; the port defaults to 80 when omitted.
pub fn parse_onion_addr(input: &str) -> (r: Result<(OnionAddrV3, u16), OnionAddrError>)
    ensures
        match spec_parse_onion_addr(input@) {
            Ok((a, p)) => r matches Ok(v) && v.0@ == a && v.1 == p,
            Err(e) => r matches Err(e2) && e2 == e,
        },
{
    let len = input.unicode_len();
    let plen = scan_onion_part(input);
    if plen != ONION_ADDR_LEN {
        return Err(OnionAddrError::BadLength);
    }
    // The suffix decides the port.
    let port = match parse_onion_suffix(input, 56) {
        Ok(p) => p,
        Err(e) => {
            return Err(e);
        },
    };
    let part = input.substring_char(0, 56);
    proof {
        assert(part@ =~= input@.take(56));
    }
    let body = match base32_decode(part) {
        Some(b) => b,
        None => {
            return Err(OnionAddrError::BadAlphabet);
        },
    };
    proof {
        lemma_b32_decode_len(input@.take(56), body@);
    }
    if body[34] != 3 {
        return Err(OnionAddrError::BadVersion);
    }
    let mut pubkey: Vec<u8> = Vec::new();
    let mut i: usize = 0;
    while i < 32
        invariant
            i <= 32,
            body@.len() == 35,
            pubkey@ == body@.take(i as int),
        decreases 32 - i,
    {
        let x = body[i];
        pubkey.push(x);
        proof {
            assert(pubkey@ =~= body@.take(i + 1));
        }
        i = i + 1;
    }
    let cin = checksum_input(&pubkey);
    let digest = sha3_256(&cin);
    if body[32] != digest[0] || body[33] != digest[1] {
        proof {
            let want = sha3_256_of(onion_checksum_input(body@.take(32))).take(2);
            if body@.subrange(32, 34) == want {
                assert(body@.subrange(32, 34)[0] == body@[32] && body@.subrange(32, 34)[1]
                    == body@[33]);
                assert(want[0] == digest@[0] && want[1] == digest@[1]);
            }
        }
        return Err(OnionAddrError::BadChecksum);
    }
    proof {
        assert(body@.subrange(32, 34) =~= sha3_256_of(
            onion_checksum_input(body@.take(32)),
        ).take(2));
    }
    let addr = base32_encode(&body);
    Ok((OnionAddrV3 { addr }, port))
}

/// Parses what follows the base32 part, from `pos` to the end.
fn parse_onion_suffix(input: &str, pos: usize) -> (r: Result<u16, OnionAddrError>)
    requires
        pos <= input@.len(),
    ensures
        match spec_onion_suffix(input@.skip(pos as int)) {
            Ok(p) => r matches Ok(v) && v == p,
            Err(e) => r matches Err(e2) && e2 == e,
        },
{
    let ghost rest = input@.skip(pos as int);
    let len = input.unicode_len();
    if pos == len {
        return Ok(80);
    }
    let c0 = input.get_char(pos);
    proof {
        assert(rest[0] == input@[pos as int]);
    }
    if c0 == '.' {
        proof {
            reveal_strlit(".onion");
            assert(".onion"@ =~= crate::parse::onion_tag());
        }
        if len - pos < 6 {
            return Err(OnionAddrError::BadFormat);
        }
        let tagpart = input.substring_char(pos, pos + 6);
        let mut ok: bool = true;
        let mut ti: usize = 0;
        while ti < 6
            invariant
                ti <= 6,
                pos + 6 <= len,
                len == input@.len(),
                tagpart@ == input@.subrange(pos as int, pos + 6),
                ok <==> (forall|j: int|
                    0 <= j < ti ==> #[trigger] tagpart@[j] == crate::parse::onion_tag()[j]),
            decreases 6 - ti,
        {
            let c = tagpart.get_char(ti);
            let want = match ti {
                0 => '.',
                1 => 'o',
                2 => 'n',
                3 => 'i',
                4 => 'o',
                _ => 'n',
            };
            if c != want {
                ok = false;
            }
            ti = ti + 1;
        }
        proof {
            assert(rest.take(6) =~= input@.subrange(pos as int, pos + 6));
            if ok {
                assert(rest.take(6) =~= crate::parse::onion_tag());
            } else {
                let j = choose|j: int|
                    0 <= j < 6 && #[trigger] tagpart@[j] != crate::parse::onion_tag()[j];
                assert(rest.take(6)[j] != crate::parse::onion_tag()[j]);
            }
        }
        if !ok {
            return Err(OnionAddrError::BadFormat);
        }
        proof {
            assert(rest.skip(6) =~= input@.skip(pos + 6));
        }
        if pos + 6 == len {
            return Ok(80);
        }
        let c6 = input.get_char(pos + 6);
        proof {
            assert(rest.skip(6)[0] == input@[pos + 6]);
        }
        if c6 == ':' {
            proof {
                assert(rest.skip(6).skip(1) =~= input@.skip(pos + 7));
            }
            match parse_plain_port_at(input, pos + 7) {
                Some(p) => Ok(p),
                None => Err(OnionAddrError::BadPort),
            }
        } else {
            Err(OnionAddrError::BadFormat)
        }
    } else if c0 == ':' {
        proof {
            assert(rest.skip(1) =~= input@.skip(pos + 1));
        }
        match parse_plain_port_at(input, pos + 1) {
            Some(p) => Ok(p),
            None => Err(OnionAddrError::BadPort),
        }
    } else {
        Err(OnionAddrError::BadFormat)
    }
}


/// Base32 text of valid characters and eight-fold length always decodes.
proof fn lemma_b32_decode_valid(s: Seq<char>)
    requires
        s.len() % 8 == 0,
        forall|i: int| 0 <= i < s.len() ==> b32_char_val(#[trigger] s[i]) is Some,
    ensures
        spec_b32_decode(s) is Some,
    decreases s.len(),
{
    if s.len() > 0 {
        let t = s.skip(8);
        assert(forall|i: int| 0 <= i < t.len() ==> t[i] == #[trigger] s[i + 8]);
        assert(forall|i: int| 0 <= i < t.len() ==> b32_char_val(#[trigger] t[i]) is Some);
        lemma_b32_decode_valid(t);
        let g = Seq::new(8, |i: int| b32_char_val(s[i]));
        assert(forall|i: int| 0 <= i < 8 ==> (#[trigger] g[i]) is Some);
    }
}

/// A well-formed 56-character address is accepted in all four written
/// forms — bare, with `.onion`, with a port, and with both — and an
/// omitted port defaults to 80.
pub proof fn lemma_onion_addr_forms(addr: Seq<char>, port: u16)
    requires
        addr.len() == 56,
        forall|i: int| 0 <= i < addr.len() ==> b32_char_val(#[trigger] addr[i]) is Some,
        ({
            let b = spec_b32_decode(addr)->Some_0;
            spec_b32_decode(addr) is Some ==> b.len() == 35 && b[34] == 3 && b.subrange(32, 34)
                == sha3_256_of(onion_checksum_input(b.take(32))).take(2)
        }),
    ensures
        ({
            let canon = spec_b32_encode(spec_b32_decode(addr)->Some_0);
            &&& spec_parse_onion_addr(addr) == Ok::<_, OnionAddrError>((canon, 80u16))
            &&& spec_parse_onion_addr(addr + crate::parse::onion_tag()) == Ok::<
                _,
                OnionAddrError,
            >((canon, 80u16))
            &&& spec_parse_onion_addr(addr + seq![':'] + crate::text::spec_decimal(port as nat))
                == Ok::<_, OnionAddrError>((canon, port))
            &&& spec_parse_onion_addr(
                addr + crate::parse::onion_tag() + seq![':'] + crate::text::spec_decimal(
                    port as nat,
                ),
            ) == Ok::<_, OnionAddrError>((canon, port))
        }),
{
    lemma_b32_decode_valid(addr);
    let b = spec_b32_decode(addr)->Some_0;
    let dport = crate::text::spec_decimal(port as nat);
    crate::json::lemma_spec_decimal_pub(port as nat);
    assert(forall|i: int| 0 <= i < addr.len() ==> not_delim(#[trigger] addr[i]));
    // The bare form.
    lemma_onion_part_len_from_scan(addr, 56);
    assert(addr.take(56) =~= addr);
    assert(addr.skip(56) =~= Seq::<char>::empty());
    // With the `.onion` suffix.
    let s2 = addr + crate::parse::onion_tag();
    assert(forall|i: int| 0 <= i < 56 ==> #[trigger] s2[i] == addr[i]);
    assert(s2[56] == '.');
    lemma_onion_part_len_from_scan(s2, 56);
    assert(s2.take(56) =~= addr);
    let r2 = s2.skip(56);
    assert(r2 =~= crate::parse::onion_tag());
    assert(r2.take(6) =~= crate::parse::onion_tag());
    assert(r2.skip(6) =~= Seq::<char>::empty());
    // With a port.
    let s3 = addr + seq![':'] + dport;
    assert(forall|i: int| 0 <= i < 56 ==> #[trigger] s3[i] == addr[i]);
    assert(s3[56] == ':');
    lemma_onion_part_len_from_scan(s3, 56);
    assert(s3.take(56) =~= addr);
    let r3 = s3.skip(56);
    assert(r3[0] == ':');
    assert(r3.skip(1) =~= dport);
    assert(spec_plain_port(dport) == Some(port)) by {
        assert(crate::parse::digits_val(dport) == port as nat);
    }
    // With both.
    let s4 = addr + crate::parse::onion_tag() + seq![':'] + dport;
    assert(forall|i: int| 0 <= i < 56 ==> #[trigger] s4[i] == addr[i]);
    assert(s4[56] == '.');
    lemma_onion_part_len_from_scan(s4, 56);
    assert(s4.take(56) =~= addr);
    let r4 = s4.skip(56);
    assert(r4.take(6) =~= crate::parse::onion_tag());
    assert(r4[0] == '.');
    let r4b = r4.skip(6);
    assert(r4b[0] == ':');
    assert(r4b.skip(1) =~= dport);
}

} // verus!
