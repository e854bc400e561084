//! The expiry key codec: encodes an expiry instant (milliseconds since the
//! Unix epoch) together with 80 bits of randomness into a 26-character
//! base-32 identifier that sorts lexicographically by expiry, and decodes
//! the expiry instant back out of such an identifier.
//!
//! The identifier holds a 128-bit value: the 48-bit timestamp in the high
//! bits, the randomness in the low 80 bits. Each character encodes five
//! bits, most significant first, using the alphabet
//! `0123456789ABCDEFGHJKMNPQRSTVWXYZ`.

use vstd::prelude::*;
use vstd::arithmetic::div_mod::{
    lemma_breakdown, lemma_div_denominator, lemma_div_multiples_vanish_fancy,
    lemma_fundamental_div_mod_converse, lemma_mod_bound, lemma_mod_mod, lemma_multiply_divide_lt,
    lemma_small_mod,
};

use crate::text::push_char;

verus! {

/// Timestamps are 48 bits: every encodable expiry instant is below this.
pub const TIMESTAMP_LIMIT: u64 = 0x1_0000_0000_0000;

/// The random component is 80 bits: every random value is below this.
pub const RANDOM_LIMIT: u128 = 0x1_0000_0000_0000_0000_0000;

/// 32 to the power `k`.
pub open spec fn pow32(k: nat) -> int
    decreases k,
{
    if k == 0 {
        1
    } else {
        32 * pow32((k - 1) as nat)
    }
}

/// The alphabet: the character for a five-bit digit.
pub open spec fn crock_char(d: int) -> char {
    if d == 0 {
        '0'
    } else if d == 1 {
        '1'
    } else if d == 2 {
        '2'
    } else if d == 3 {
        '3'
    } else if d == 4 {
        '4'
    } else if d == 5 {
        '5'
    } else if d == 6 {
        '6'
    } else if d == 7 {
        '7'
    } else if d == 8 {
        '8'
    } else if d == 9 {
        '9'
    } else if d == 10 {
        'A'
    } else if d == 11 {
        'B'
    } else if d == 12 {
        'C'
    } else if d == 13 {
        'D'
    } else if d == 14 {
        'E'
    } else if d == 15 {
        'F'
    } else if d == 16 {
        'G'
    } else if d == 17 {
        'H'
    } else if d == 18 {
        'J'
    } else if d == 19 {
        'K'
    } else if d == 20 {
        'M'
    } else if d == 21 {
        'N'
    } else if d == 22 {
        'P'
    } else if d == 23 {
        'Q'
    } else if d == 24 {
        'R'
    } else if d == 25 {
        'S'
    } else if d == 26 {
        'T'
    } else if d == 27 {
        'V'
    } else if d == 28 {
        'W'
    } else if d == 29 {
        'X'
    } else if d == 30 {
        'Y'
    } else {
        'Z'
    }
}

/// The five-bit digit for a character, or -1 for a character outside the
/// alphabet.
pub open spec fn crock_index(c: char) -> int {
    if c == '0' {
        0
    } else if c == '1' {
        1
    } else if c == '2' {
        2
    } else if c == '3' {
        3
    } else if c == '4' {
        4
    } else if c == '5' {
        5
    } else if c == '6' {
        6
    } else if c == '7' {
        7
    } else if c == '8' {
        8
    } else if c == '9' {
        9
    } else if c == 'A' {
        10
    } else if c == 'B' {
        11
    } else if c == 'C' {
        12
    } else if c == 'D' {
        13
    } else if c == 'E' {
        14
    } else if c == 'F' {
        15
    } else if c == 'G' {
        16
    } else if c == 'H' {
        17
    } else if c == 'J' {
        18
    } else if c == 'K' {
        19
    } else if c == 'M' {
        20
    } else if c == 'N' {
        21
    } else if c == 'P' {
        22
    } else if c == 'Q' {
        23
    } else if c == 'R' {
        24
    } else if c == 'S' {
        25
    } else if c == 'T' {
        26
    } else if c == 'V' {
        27
    } else if c == 'W' {
        28
    } else if c == 'X' {
        29
    } else if c == 'Y' {
        30
    } else if c == 'Z' {
        31
    } else {
        -1
    }
}

/// The 128-bit value an identifier carries: timestamp in the high 48 bits,
/// randomness in the low 80.
pub open spec fn id_value(t: u64, r: u128) -> int {
    t * RANDOM_LIMIT + r
}

/// Digit `i` (most significant first) of the 26-digit base-32 encoding of `v`.
pub open spec fn digit_of(v: int, i: int) -> int {
    (v / pow32((25 - i) as nat)) % 32
}

/// The 26-character encoding of a value.
pub open spec fn encode_spec(v: int) -> Seq<char> {
    Seq::new(26, |i: int| crock_char(digit_of(v, i)))
}

/// The value carried by a digit string, most significant digit first.
pub open spec fn value_of(s: Seq<char>) -> int
    decreases s.len(),
{
    if s.len() == 0 {
        0
    } else {
        value_of(s.drop_last()) * 32 + crock_index(s.last())
    }
}

/// Every character is in the alphabet and the length is right.
pub open spec fn digits_ok(s: Seq<char>) -> bool {
    s.len() == 26 && forall|i: int| 0 <= i < 26 ==> crock_index(s[i]) >= 0
}

/// What decoding an identifier yields: the embedded expiry instant, or
/// nothing for a malformed identifier (wrong length, a character outside
/// the alphabet, or a value that overflows 128 bits).
pub open spec fn decode_spec(s: Seq<char>) -> Option<u64> {
    if digits_ok(s) && crock_index(s[0]) < 8 {
        Some((value_of(s) / RANDOM_LIMIT as int) as u64)
    } else {
        None
    }
}

proof fn lemma_pow32_pos(k: nat)
    ensures
        pow32(k) >= 1,
    decreases k,
{
    if k > 0 {
        lemma_pow32_pos((k - 1) as nat);
    }
}

proof fn lemma_pow32_increases(a: nat, b: nat)
    requires
        a <= b,
    ensures
        pow32(a) <= pow32(b),
    decreases b,
{
    if a < b {
        lemma_pow32_increases(a, (b - 1) as nat);
        lemma_pow32_pos((b - 1) as nat);
    }
}

proof fn lemma_pow32_values()
    ensures
        pow32(16) == RANDOM_LIMIT,
        pow32(25) == 0x2000_0000_0000_0000_0000_0000_0000_0000,
        pow32(26) == 32 * 0x2000_0000_0000_0000_0000_0000_0000_0000,
{
    reveal_with_fuel(pow32, 27);
}

fn crock_char_exec(d: u8) -> (c: char)
    requires
        d < 32,
    ensures
        c == crock_char(d as int),
{
    match d {
        0 => '0',
        1 => '1',
        2 => '2',
        3 => '3',
        4 => '4',
        5 => '5',
        6 => '6',
        7 => '7',
        8 => '8',
        9 => '9',
        10 => 'A',
        11 => 'B',
        12 => 'C',
        13 => 'D',
        14 => 'E',
        15 => 'F',
        16 => 'G',
        17 => 'H',
        18 => 'J',
        19 => 'K',
        20 => 'M',
        21 => 'N',
        22 => 'P',
        23 => 'Q',
        24 => 'R',
        25 => 'S',
        26 => 'T',
        27 => 'V',
        28 => 'W',
        29 => 'X',
        30 => 'Y',
        _ => 'Z',
    }
}

fn crock_index_exec(c: char) -> (r: Option<u8>)
    ensures
        match r {
            Some(d) => d < 32 && crock_index(c) == d as int,
            None => crock_index(c) < 0,
        },
{
    match c {
        '0' => Some(0),
        '1' => Some(1),
        '2' => Some(2),
        '3' => Some(3),
        '4' => Some(4),
        '5' => Some(5),
        '6' => Some(6),
        '7' => Some(7),
        '8' => Some(8),
        '9' => Some(9),
        'A' => Some(10),
        'B' => Some(11),
        'C' => Some(12),
        'D' => Some(13),
        'E' => Some(14),
        'F' => Some(15),
        'G' => Some(16),
        'H' => Some(17),
        'J' => Some(18),
        'K' => Some(19),
        'M' => Some(20),
        'N' => Some(21),
        'P' => Some(22),
        'Q' => Some(23),
        'R' => Some(24),
        'S' => Some(25),
        'T' => Some(26),
        'V' => Some(27),
        'W' => Some(28),
        'X' => Some(29),
        'Y' => Some(30),
        'Z' => Some(31),
        _ => None,
    }
}

proof fn lemma_crock_inverse(d: int)
    requires
        0 <= d < 32,
    ensures
        crock_index(crock_char(d)) == d,
{
}

/// Encodes a timestamp and a random component into a 26-character
/// identifier.
pub fn encode(expiry_ms: u64, randomness: u128) -> (r: String)
    requires
        expiry_ms < TIMESTAMP_LIMIT,
        randomness < RANDOM_LIMIT,
    ensures
        r@ == encode_spec(id_value(expiry_ms, randomness)),
        r@.len() == 26,
{
    proof {
        lemma_pow32_values();
    }
    let value: u128 = (expiry_ms as u128) * RANDOM_LIMIT + randomness;
    let ghost v0: int = value as int;
    proof {
        assert(v0 < pow32(26));
        lemma_small_mod(v0 as nat, pow32(26) as nat);
    }
    let mut v: u128 = value;
    let mut p: u128 = 0x2000_0000_0000_0000_0000_0000_0000_0000;
    let mut out: String = String::new();
    let mut i: usize = 0;
    while i < 26
        invariant
            i <= 26,
            out@.len() == i,
            out@ == encode_spec(v0).subrange(0, i as int),
            0 <= v0 < pow32(26),
            i < 26 ==> p == pow32((25 - i) as nat),
            v == v0 % pow32((26 - i) as nat),
        decreases 26 - i,
    {
        proof {
            lemma_pow32_pos((25 - i) as nat);
            assert(pow32((26 - i) as nat) == 32 * pow32((25 - i) as nat));
            lemma_mod_bound(v0, pow32((26 - i) as nat));
        }
        let d: u8 = (v / p) as u8;
        proof {
            // v < 32 * p, so v / p < 32.
            lemma_multiply_divide_lt(v as int, p as int, 32);
            // d is digit i of v0: v = v0 % (p * 32) and
            // v0 % (p * 32) == p * ((v0 / p) % 32) + v0 % p, so dividing the
            // remainder by p yields (v0 / p) % 32.
            lemma_breakdown(v0, p as int, 32);
            assert(p as int * 32 == 32 * pow32((25 - i) as nat));
            lemma_mod_bound(v0, p as int);
            lemma_fundamental_div_mod_converse(
                v as int,
                p as int,
                (v0 / p as int) % 32,
                v0 % p as int,
            );
            assert(d as int == digit_of(v0, i as int));
        }
        let c = crock_char_exec(d);
        push_char(&mut out, c);
        proof {
            assert(encode_spec(v0)[i as int] == crock_char(digit_of(v0, i as int)));
            assert(out@ =~= encode_spec(v0).subrange(0, i + 1));
            // v % p == v0 % p carries the remaining digits.
            lemma_mod_mod(v0, p as int, 32);
            assert((v0 % (p as int * 32)) % p as int == v0 % p as int);
        }
        v = v % p;
        p = p / 32;
        proof {
            if i + 1 < 26 {
                assert(pow32((25 - i) as nat) / 32 == pow32((24 - i) as nat)) by {
                    lemma_pow32_pos((24 - i) as nat);
                    lemma_fundamental_div_mod_converse(
                        pow32((25 - i) as nat),
                        32,
                        pow32((24 - i) as nat),
                        0,
                    );
                }
            }
        }
        i = i + 1;
    }
    proof {
        assert(out@ =~= encode_spec(v0));
    }
    out
}

/// Decodes an identifier back to its embedded expiry instant.
#[verifier::rlimit(60)]
pub fn decode(s: &str) -> (r: Option<u64>)
    ensures
        r == decode_spec(s@),
{
    let n = s.unicode_len();
    if n != 26 {
        return None;
    }
    proof {
        lemma_pow32_values();
    }
    let mut acc: u128 = 0;
    let mut i: usize = 0;
    while i < 26
        invariant
            i <= 26,
            n == s@.len(),
            n == 26,
            forall|j: int| 0 <= j < i ==> crock_index(s@[j]) >= 0,
            i > 0 ==> crock_index(s@[0]) < 8,
            acc == value_of(s@.subrange(0, i as int)),
            i > 0 ==> acc < 8 * pow32((i - 1) as nat),
            i == 0 ==> acc == 0,
        decreases 26 - i,
    {
        let c = s.get_char(i);
        let ghost pre = s@.subrange(0, i as int);
        let ghost cur = s@.subrange(0, i + 1);
        proof {
            assert(cur.drop_last() =~= pre);
            assert(cur.last() == s@[i as int]);
        }
        match crock_index_exec(c) {
            None => {
                return None;
            },
            Some(d) => {
                if i == 0 {
                    if d >= 8 {
                        return None;
                    }
                    acc = d as u128;
                    proof {
                        assert(value_of(cur) == value_of(pre) * 32 + crock_index(s@[i as int]));
                        assert(8 * pow32(0) == 8);
                    }
                } else {
                    proof {
                        lemma_pow32_values();
                        assert(pow32(i as nat) == 32 * pow32((i - 1) as nat));
                        lemma_pow32_increases(i as nat, 25);
                        lemma_pow32_pos((i - 1) as nat);
                        assert(acc * 32 + d < 8 * pow32(i as nat));
                        assert(8 * pow32(i as nat) <= 8 * pow32(25));
                    }
                    acc = acc * 32 + d as u128;
                    proof {
                        assert(value_of(cur) == value_of(pre) * 32 + crock_index(s@[i as int]));
                    }
                }
            },
        }
        i = i + 1;
    }
    proof {
        assert(s@.subrange(0, 26) =~= s@);
        assert(digits_ok(s@));
    }
    let ts_wide: u128 = acc / RANDOM_LIMIT;
    proof {
        // acc < 8 * 32^25 = 2^128 and the quotient by 2^80 is below 2^48.
        lemma_multiply_divide_lt(acc as int, RANDOM_LIMIT as int, 0x1_0000_0000_0000);
        assert(RANDOM_LIMIT as int * 0x1_0000_0000_0000 == 8 * pow32(25));
    }
    Some(ts_wide as u64)
}

/// The value of an encoded prefix: the first `k` digits of the encoding of
/// `v` carry `v` shifted down by the remaining digit positions, reduced to
/// `k` digits.
proof fn lemma_value_of_encode_prefix(v: int, k: int)
    requires
        0 <= v < pow32(26),
        0 <= k <= 26,
    ensures
        value_of(encode_spec(v).subrange(0, k)) == (v / pow32((26 - k) as nat)) % pow32(k as nat),
    decreases k,
{
    lemma_pow32_pos((26 - k) as nat);
    lemma_pow32_pos(k as nat);
    if k == 0 {
        assert(encode_spec(v).subrange(0, 0) =~= Seq::<char>::empty());
        assert(value_of(Seq::<char>::empty()) == 0);
        lemma_small_mod(0, 1);
        assert((v / pow32(26)) % pow32(0) == 0) by {
            lemma_multiply_divide_lt(v, pow32(26), 1);
            assert(v / pow32(26) >= 0) by {
                vstd::arithmetic::div_mod::lemma_div_pos_is_pos(v, pow32(26));
            }
            lemma_small_mod(0, 1);
        }
    } else {
        lemma_value_of_encode_prefix(v, k - 1);
        let p = encode_spec(v).subrange(0, k - 1);
        let q = encode_spec(v).subrange(0, k);
        assert(q.drop_last() =~= p);
        assert(q.last() == encode_spec(v)[k - 1]);
        let d = digit_of(v, k - 1);
        assert(0 <= d < 32) by {
            lemma_pow32_pos((26 - k) as nat);
            lemma_mod_bound(v / pow32((26 - k) as nat), 32);
            vstd::arithmetic::div_mod::lemma_div_pos_is_pos(v, pow32((26 - k) as nat));
        }
        lemma_crock_inverse(d);
        assert(crock_index(q.last()) == d);
        // value_of(q) == value_of(p) * 32 + d
        // where value_of(p) == (v / pow32(27 - k)) % pow32(k - 1).
        let y = v / pow32((26 - k) as nat);
        assert(y >= 0) by {
            vstd::arithmetic::div_mod::lemma_div_pos_is_pos(v, pow32((26 - k) as nat));
        }
        // v / pow32(27 - k) == y / 32
        assert(v / pow32((27 - k) as nat) == y / 32) by {
            lemma_pow32_pos((26 - k) as nat);
            lemma_div_denominator(v, pow32((26 - k) as nat), 32);
            assert(pow32((26 - k) as nat) * 32 == pow32((27 - k) as nat));
        }
        // y % pow32(k) == 32 * ((y / 32) % pow32(k - 1)) + y % 32
        assert(y % pow32(k as nat) == 32 * ((y / 32) % pow32((k - 1) as nat)) + y % 32) by {
            lemma_pow32_pos((k - 1) as nat);
            lemma_breakdown(y, 32, pow32((k - 1) as nat));
            assert(32 * pow32((k - 1) as nat) == pow32(k as nat));
        }
        assert(d == y % 32);
        assert(value_of(q) == value_of(p) * 32 + d);
        assert(value_of(p) == (y / 32) % pow32((k - 1) as nat));
        assert(value_of(q) == ((y / 32) % pow32((k - 1) as nat)) * 32 + y % 32);
        assert(y % pow32(k as nat) == value_of(q));
    }
}

/// The whole encoding carries exactly `v`.
proof fn lemma_value_of_encode(v: int)
    requires
        0 <= v < pow32(26),
    ensures
        value_of(encode_spec(v)) == v,
{
    lemma_value_of_encode_prefix(v, 26);
    assert(encode_spec(v).subrange(0, 26) =~= encode_spec(v));
    assert(pow32(0) == 1);
    assert(v / 1 == v) by {
        lemma_fundamental_div_mod_converse(v, 1, v, 0);
    }
    lemma_small_mod(v as nat, pow32(26) as nat);
}

/// The codec round trip: decoding an encoded identifier recovers the
/// expiry instant exactly, whatever the random component was.
pub proof fn lemma_codec_round_trip(t: u64, r: u128)
    requires
        t < TIMESTAMP_LIMIT,
        r < RANDOM_LIMIT,
    ensures
        decode_spec(encode_spec(id_value(t, r))) == Some(t),
{
    lemma_pow32_values();
    let v = id_value(t, r);
    assert(0 <= v < 8 * pow32(25));
    assert(8 * pow32(25) <= pow32(26));
    let s = encode_spec(v);
    // every digit is in the alphabet
    assert forall|i: int| 0 <= i < 26 implies crock_index(s[i]) >= 0 by {
        let d = digit_of(v, i);
        assert(0 <= d < 32) by {
            lemma_pow32_pos((25 - i) as nat);
            vstd::arithmetic::div_mod::lemma_div_pos_is_pos(v, pow32((25 - i) as nat));
            lemma_mod_bound(v / pow32((25 - i) as nat), 32);
        }
        lemma_crock_inverse(d);
    }
    // the first digit is below 8
    assert(crock_index(s[0]) < 8) by {
        let d0 = digit_of(v, 0);
        assert(v / pow32(25) < 8) by {
            lemma_multiply_divide_lt(v, pow32(25), 8);
        }
        assert(v / pow32(25) >= 0) by {
            vstd::arithmetic::div_mod::lemma_div_pos_is_pos(v, pow32(25));
        }
        assert(d0 == v / pow32(25)) by {
            lemma_small_mod((v / pow32(25)) as nat, 32);
        }
        lemma_crock_inverse(d0);
    }
    lemma_value_of_encode(v);
    // v / 2^80 == t
    assert(v / RANDOM_LIMIT as int == t) by {
        lemma_div_multiples_vanish_fancy(t as int, r as int, RANDOM_LIMIT as int);
        assert(RANDOM_LIMIT as int * t + r == v) by {
            vstd::arithmetic::mul::lemma_mul_is_commutative(RANDOM_LIMIT as int, t as int);
        }
    }
}

/// Two identifiers encoded from the same value are the same value: the
/// encoding is injective in both the timestamp and the random component.
pub proof fn lemma_encode_injective(t1: u64, r1: u128, t2: u64, r2: u128)
    requires
        t1 < TIMESTAMP_LIMIT,
        r1 < RANDOM_LIMIT,
        t2 < TIMESTAMP_LIMIT,
        r2 < RANDOM_LIMIT,
        encode_spec(id_value(t1, r1)) == encode_spec(id_value(t2, r2)),
    ensures
        t1 == t2,
        r1 == r2,
{
    lemma_pow32_values();
    let v1 = id_value(t1, r1);
    let v2 = id_value(t2, r2);
    assert(0 <= v1 < pow32(26));
    assert(0 <= v2 < pow32(26));
    lemma_value_of_encode(v1);
    lemma_value_of_encode(v2);
    assert(v1 == v2);
    lemma_fundamental_div_mod_converse(v1, RANDOM_LIMIT as int, t1 as int, r1 as int);
    lemma_fundamental_div_mod_converse(v2, RANDOM_LIMIT as int, t2 as int, r2 as int);
}

/// Distinct random components give distinct identifiers, even for the same
/// expiry instant: uniqueness under a timestamp collision.
pub proof fn lemma_identifiers_distinct(t: u64, r1: u128, r2: u128)
    requires
        t < TIMESTAMP_LIMIT,
        r1 < RANDOM_LIMIT,
        r2 < RANDOM_LIMIT,
        r1 != r2,
    ensures
        encode_spec(id_value(t, r1)) != encode_spec(id_value(t, r2)),
{
    if encode_spec(id_value(t, r1)) == encode_spec(id_value(t, r2)) {
        lemma_encode_injective(t, r1, t, r2);
    }
}

/// `a` strictly precedes `b` in lexicographic order by code point.
pub open spec fn lex_less(a: Seq<char>, b: Seq<char>) -> bool
    decreases a.len(),
{
    if b.len() == 0 {
        false
    } else if a.len() == 0 {
        true
    } else if a[0] != b[0] {
        (a[0] as u32) < (b[0] as u32)
    } else {
        lex_less(a.drop_first(), b.drop_first())
    }
}

proof fn lemma_crock_char_order(d1: int, d2: int)
    requires
        0 <= d1 < d2 < 32,
    ensures
        (crock_char(d1) as u32) < (crock_char(d2) as u32),
{
}

proof fn lemma_encode_lex(v1: int, v2: int, k: int)
    requires
        0 <= v1 < v2 < pow32(26),
        0 <= k <= 26,
        v1 / pow32((26 - k) as nat) == v2 / pow32((26 - k) as nat),
    ensures
        lex_less(encode_spec(v1).skip(k), encode_spec(v2).skip(k)),
    decreases 26 - k,
{
    lemma_pow32_pos((26 - k) as nat);
    if k == 26 {
        // the whole values would be equal, contradicting v1 < v2
        assert(v1 / 1 == v1) by {
            lemma_fundamental_div_mod_converse(v1, 1, v1, 0);
        }
        assert(v2 / 1 == v2) by {
            lemma_fundamental_div_mod_converse(v2, 1, v2, 0);
        }
        assert(false);
    } else {
        lemma_pow32_pos((25 - k) as nat);
        let y1 = v1 / pow32((25 - k) as nat);
        let y2 = v2 / pow32((25 - k) as nat);
        let d1 = digit_of(v1, k);
        let d2 = digit_of(v2, k);
        assert(y1 >= 0 && y2 >= 0) by {
            vstd::arithmetic::div_mod::lemma_div_pos_is_pos(v1, pow32((25 - k) as nat));
            vstd::arithmetic::div_mod::lemma_div_pos_is_pos(v2, pow32((25 - k) as nat));
        }
        // the digit-k prefix quotients: y / 32 is the first k digits
        assert(y1 / 32 == v1 / pow32((26 - k) as nat) && y2 / 32 == v2 / pow32((26 - k) as nat))
            by {
            lemma_div_denominator(v1, pow32((25 - k) as nat), 32);
            lemma_div_denominator(v2, pow32((25 - k) as nat), 32);
            assert(pow32((25 - k) as nat) * 32 == pow32((26 - k) as nat)) by (nonlinear_arith)
                requires
                    pow32((26 - k) as nat) == 32 * pow32((25 - k) as nat),
            ;
        }
        assert(d1 == y1 % 32 && d2 == y2 % 32);
        vstd::arithmetic::div_mod::lemma_fundamental_div_mod(y1, 32);
        vstd::arithmetic::div_mod::lemma_fundamental_div_mod(y2, 32);
        assert(0 <= d1 < 32 && 0 <= d2 < 32) by {
            lemma_mod_bound(y1, 32);
            lemma_mod_bound(y2, 32);
        }
        let a = encode_spec(v1).skip(k);
        let b = encode_spec(v2).skip(k);
        assert(a[0] == crock_char(d1));
        assert(b[0] == crock_char(d2));
        if d1 == d2 {
            assert(y1 == y2);
            lemma_encode_lex(v1, v2, k + 1);
            assert(a.drop_first() =~= encode_spec(v1).skip(k + 1));
            assert(b.drop_first() =~= encode_spec(v2).skip(k + 1));
            assert(a[0] == b[0]);
        } else {
            // equal prefixes and v1 < v2 force the digits to be ordered
            assert(y1 <= y2) by {
                vstd::arithmetic::div_mod::lemma_div_is_ordered(
                    v1,
                    v2,
                    pow32((25 - k) as nat),
                );
            }
            assert(d1 < d2);
            lemma_crock_char_order(d1, d2);
            lemma_crock_inverse(d1);
            lemma_crock_inverse(d2);
            assert(a[0] != b[0]);
        }
    }
}

/// The sort-order invariant of the key scheme: an identifier for an
/// earlier expiry instant precedes one for a later instant in plain
/// lexicographic order, whatever the random components are.
pub proof fn lemma_identifiers_sort_by_expiry(t1: u64, r1: u128, t2: u64, r2: u128)
    requires
        t1 < t2 < TIMESTAMP_LIMIT,
        r1 < RANDOM_LIMIT,
        r2 < RANDOM_LIMIT,
    ensures
        lex_less(encode_spec(id_value(t1, r1)), encode_spec(id_value(t2, r2))),
{
    lemma_pow32_values();
    let v1 = id_value(t1, r1);
    let v2 = id_value(t2, r2);
    assert(v1 < v2);
    assert(0 <= v1 < pow32(26) && 0 <= v2 < pow32(26));
    assert(v1 / pow32(26) == 0 && v2 / pow32(26) == 0) by {
        vstd::arithmetic::div_mod::lemma_basic_div(v1, pow32(26));
        vstd::arithmetic::div_mod::lemma_basic_div(v2, pow32(26));
    }
    lemma_encode_lex(v1, v2, 0);
    assert(encode_spec(v1).skip(0) =~= encode_spec(v1));
    assert(encode_spec(v2).skip(0) =~= encode_spec(v2));
}

/// Relies on ulid's `Ulid::generate` and `Ulid::random`: the random
/// component of a generated identifier is its low 80 bits, so it is always
/// below 2^80.
#[verifier::external_body]
fn fresh_random() -> (r: u128)
    ensures
        r < RANDOM_LIMIT,
{
    ulid::Ulid::generate().random()
}

/// Encodes a fresh identifier for an expiry instant, attaching random bits:
/// whatever those bits are, the identifier decodes back to the instant.
pub fn fresh_identifier(expiry_ms: u64) -> (r: String)
    requires
        expiry_ms < TIMESTAMP_LIMIT,
    ensures
        decode_spec(r@) == Some(expiry_ms),
        r@.len() == 26,
        exists|rand: u128|
            rand < RANDOM_LIMIT && r@ == encode_spec(id_value(expiry_ms, rand)),
{
    let rand = fresh_random();
    let id = encode(expiry_ms, rand);
    proof {
        lemma_codec_round_trip(expiry_ms, rand);
    }
    id
}

/// The expiry instant for an upload: now plus the configured lifetime.
pub fn expiry_instant(now_ms: u64, expires_secs: u32) -> (r: u64)
    requires
        now_ms + expires_secs * 1000 < TIMESTAMP_LIMIT,
    ensures
        r == now_ms + expires_secs * 1000,
{
    now_ms + (expires_secs as u64) * 1000
}

} // verus!
