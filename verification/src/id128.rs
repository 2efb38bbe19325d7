//! 128-bit sortable identifiers: the big-endian byte value they carry, the
//! byte-wise order on them, and their fixed-width base-62 textual encoding.

use vstd::arithmetic::div_mod::{lemma_div_denominator, lemma_div_is_ordered};
use vstd::prelude::*;

verus! {

/// Value of a byte string read as one big-endian unsigned integer.
pub open spec fn be_value(s: Seq<u8>) -> int
    decreases s.len(),
{
    if s.len() == 0 {
        0
    } else {
        be_value(s.drop_last()) * 256 + s.last()
    }
}

/// 256 to the power `n`.
pub open spec fn pow256(n: nat) -> int
    decreases n,
{
    if n == 0 {
        1
    } else {
        256 * pow256((n - 1) as nat)
    }
}

/// 62 to the power `n`.
pub open spec fn pow62(n: nat) -> int
    decreases n,
{
    if n == 0 {
        1
    } else {
        62 * pow62((n - 1) as nat)
    }
}

pub proof fn lemma_pow62_pos(n: nat)
    ensures
        pow62(n) > 0,
    decreases n,
{
    if n > 0 {
        lemma_pow62_pos((n - 1) as nat);
    }
}

/// A byte string's value is bounded by 256 to its length.
pub proof fn lemma_be_value_bounds(s: Seq<u8>)
    ensures
        0 <= be_value(s) < pow256(s.len()),
    decreases s.len(),
{
    if s.len() > 0 {
        lemma_be_value_bounds(s.drop_last());
    }
}

/// Strict lexicographic order on byte strings: the strings agree up to some
/// position and differ in the first string's favour there.
pub open spec fn bytes_lt(a: Seq<u8>, b: Seq<u8>) -> bool {
    exists|i: int|
        0 <= i < a.len() && i < b.len() && (forall|j: int| 0 <= j < i ==> a[j] == b[j]) && a[i]
            < b[i]
}

/// Equal-length byte strings with equal values are equal.
proof fn lemma_be_value_injective(a: Seq<u8>, b: Seq<u8>)
    requires
        a.len() == b.len(),
        be_value(a) == be_value(b),
    ensures
        a =~= b,
    decreases a.len(),
{
    if a.len() > 0 {
        let x = a.last();
        let y = b.last();
        assert(be_value(a.drop_last()) == be_value(b.drop_last()) && x == y);
        lemma_be_value_injective(a.drop_last(), b.drop_last());
        assert forall|i: int| 0 <= i < a.len() implies a[i] == b[i] by {
            if i < a.len() - 1 {
                assert(a[i] == a.drop_last()[i]);
                assert(b[i] == b.drop_last()[i]);
            }
        }
    }
}

/// On equal-length byte strings, numeric order of the big-endian values is
/// exactly byte-wise lexicographic order.
pub proof fn lemma_be_value_order(a: Seq<u8>, b: Seq<u8>)
    requires
        a.len() == b.len(),
        be_value(a) < be_value(b),
    ensures
        bytes_lt(a, b),
    decreases a.len(),
{
    assert(a.len() > 0);
    let ad = a.drop_last();
    let bd = b.drop_last();
    lemma_be_value_bounds(ad);
    lemma_be_value_bounds(bd);
    if be_value(ad) == be_value(bd) {
        lemma_be_value_injective(ad, bd);
        let i = a.len() - 1;
        assert(a[i] < b[i]);
        assert forall|j: int| 0 <= j < i implies a[j] == b[j] by {
            assert(a[j] == ad[j]);
            assert(b[j] == bd[j]);
        }
        assert(bytes_lt(a, b));
    } else if be_value(ad) < be_value(bd) {
        lemma_be_value_order(ad, bd);
        let i = choose|i: int|
            0 <= i < ad.len() && i < bd.len() && (forall|j: int| 0 <= j < i ==> ad[j] == bd[j])
                && ad[i] < bd[i];
        assert(a[i] == ad[i] && b[i] == bd[i]);
        assert forall|j: int| 0 <= j < i implies a[j] == b[j] by {
            assert(a[j] == ad[j]);
            assert(b[j] == bd[j]);
        }
        assert(bytes_lt(a, b));
    } else {
        assert(be_value(a) >= be_value(ad) * 256);
        assert(be_value(ad) * 256 >= (be_value(bd) + 1) * 256);
        assert(be_value(b) < (be_value(bd) + 1) * 256);
        assert(false);
    }
}

/// The character standing for one base-62 digit: `0`-`9`, then `A`-`Z`,
/// then `a`-`z`.
pub open spec fn base62_char(d: int) -> char {
    if d < 10 {
        ((48 + d) as u8) as char
    } else if d < 36 {
        ((55 + d) as u8) as char
    } else {
        ((61 + d) as u8) as char
    }
}

/// Whether `c` is one of the 62 allowed symbols.
pub open spec fn is_base62_char(c: char) -> bool {
    (48 <= c as u32 && c as u32 <= 57) || (65 <= c as u32 && c as u32 <= 90) || (97 <= c as u32
        && c as u32 <= 122)
}

/// The `n`-character base-62 encoding of `v`, most significant digit first,
/// left-padded with the zero digit.
pub open spec fn base62_of(v: int, n: nat) -> Seq<char>
    decreases n,
{
    if n == 0 {
        Seq::empty()
    } else {
        base62_of(v / 62, (n - 1) as nat).push(base62_char(v % 62))
    }
}

pub proof fn lemma_base62_of_len(v: int, n: nat)
    ensures
        base62_of(v, n).len() == n,
    decreases n,
{
    if n > 0 {
        lemma_base62_of_len(v / 62, (n - 1) as nat);
    }
}

/// The digit `j` places from the right of the encoding is the value shifted
/// down by 62 to the `j` and reduced mod 62.
pub proof fn lemma_base62_of_index(v: int, n: nat, j: nat)
    requires
        j < n,
        0 <= v,
    ensures
        base62_of(v, n).len() == n,
        base62_of(v, n)[n - 1 - j] == base62_char((v / pow62(j)) % 62),
    decreases n,
{
    lemma_base62_of_len(v, n);
    lemma_base62_of_len(v / 62, (n - 1) as nat);
    if j == 0 {
        assert(v / pow62(0) == v);
    } else {
        assert(v / 62 >= 0) by {
            assert(v >= 0);
        }
        lemma_base62_of_index(v / 62, (n - 1) as nat, (j - 1) as nat);
        assert(base62_of(v, n)[n - 1 - j] == base62_of(v / 62, (n - 1) as nat)[n - 1 - j]);
        lemma_pow62_pos((j - 1) as nat);
        lemma_div_denominator(v, 62, pow62((j - 1) as nat));
        assert(62 * pow62((j - 1) as nat) == pow62(j));
        assert((v / 62) / pow62((j - 1) as nat) == v / pow62(j));
    }
}

/// The mathematical characters of a string of ASCII bytes.
pub open spec fn ascii_chars(s: Seq<u8>) -> Seq<char> {
    s.map_values(|b: u8| b as char)
}

/// Relies on std's `String::from_utf8`: bytes below 128 are valid UTF-8 and
/// decode to exactly one character per byte, each the byte's code point.
#[verifier::external_body]
fn ascii_to_string(bytes: &Vec<u8>) -> (r: String)
    requires
        forall|i: int| 0 <= i < bytes@.len() ==> bytes@[i] < 128,
    ensures
        r@ == ascii_chars(bytes@),
{
    String::from_utf8(bytes.clone()).unwrap()
}

/// A 128-bit sortable identifier: 48 bits of milliseconds and a 16-bit
/// sequence number for ordering, 48 random bits for uniqueness, and a 16-bit
/// shard id.
#[derive(Debug, Clone, Copy, PartialEq, Eq, PartialOrd, Ord)]
pub struct Id128 {
    bytes: [u8; 16],
}

impl Id128 {
    /// The identifier's sixteen bytes.
    pub closed spec fn byte_seq(self) -> Seq<u8> {
        self.bytes@
    }

    pub fn new(buf: [u8; 16]) -> (r: Self)
        ensures
            r.byte_seq() == buf@,
    {
        Id128 { bytes: buf }
    }

    /// Encode the identifier as exactly 22 characters over `0`-`9`, `A`-`Z`,
    /// `a`-`z`, the fixed-width base-62 form of its 128-bit value;
    /// lexicographic order of encodings matches numeric order of values.
    pub fn to_base62(&self) -> (r: String)
        ensures
            r@.len() == 22,
            forall|i: int| 0 <= i < 22 ==> is_base62_char(#[trigger] r@[i]),
            r@ == base62_of(be_value(self.byte_seq()), 22),
    {
        proof {
            assert(self.bytes@.len() == 16);
        }
        let mut n: u128 = 0;
        let mut j: usize = 0;
        while j < 16
            invariant
                j <= 16,
                self.bytes@.len() == 16,
                n == be_value(self.bytes@.take(j as int)),
                n < pow256(j as nat),
            decreases 16 - j,
        {
            proof {
                assert(self.bytes@.take(j + 1).drop_last() =~= self.bytes@.take(j as int));
                assert(self.bytes@.take(j + 1).last() == self.bytes@[j as int]);
                reveal_with_fuel(pow256, 17);
                assert(pow256((j + 1) as nat) == 256 * pow256(j as nat));
                assert(pow256(16) == 0x100000000000000000000000000000000);
                assert(pow256(j as nat) <= pow256(16)) by {
                    lemma_pow256_increases(j as nat, 16);
                }
            }
            n = n * 256 + (self.bytes[j] as u128);
            j += 1;
        }
        proof {
            assert(self.bytes@.take(16) =~= self.bytes@);
        }
        let ghost v0: int = n as int;
        let mut out: Vec<u8> = Vec::new();
        let mut k: usize = 0;
        while k < 22
            invariant
                k <= 22,
                out@.len() == k,
            decreases 22 - k,
        {
            out.push(48);
            k += 1;
        }
        let mut m: u128 = n;
        let mut k2: usize = 0;
        while k2 < 22
            invariant
                k2 <= 22,
                out@.len() == 22,
                v0 >= 0,
                m == v0 / pow62(k2 as nat),
                forall|j2: int|
                    0 <= j2 < k2 ==> #[trigger] out@[21 - j2] < 128 && (out@[21 - j2] as char)
                        == base62_char((v0 / pow62(j2 as nat)) % 62) && is_base62_char(
                        out@[21 - j2] as char,
                    ),
            decreases 22 - k2,
        {
            let d = (m % 62) as u8;
            let byte: u8 = if d < 10 {
                48 + d
            } else if d < 36 {
                55 + d
            } else {
                61 + d
            };
            let ghost out0 = out@;
            out.set(21 - k2, byte);
            proof {
                assert(out@[21 - k2 as int] == byte);
                assert((byte as char) == base62_char((v0 / pow62(k2 as nat)) % 62));
                assert(is_base62_char(byte as char));
                assert forall|j2: int|
                    0 <= j2 < k2 implies #[trigger] out@[21 - j2] < 128 && (out@[21 - j2] as char)
                    == base62_char((v0 / pow62(j2 as nat)) % 62) && is_base62_char(
                    out@[21 - j2] as char,
                ) by {
                    assert(out@[21 - j2] == out0[21 - j2]);
                }
                lemma_pow62_pos(k2 as nat);
                lemma_div_denominator(v0, pow62(k2 as nat), 62);
                assert(pow62(k2 as nat) * 62 == pow62((k2 + 1) as nat));
                assert((v0 / pow62(k2 as nat)) / 62 == v0 / pow62((k2 + 1) as nat));
            }
            m = m / 62;
            k2 += 1;
        }
        proof {
            assert forall|i: int| 0 <= i < 22 implies out@[i] < 128 && is_base62_char(
                out@[i] as char,
            ) by {
                let j2 = 21 - i;
                assert(out@[21 - j2] < 128 && is_base62_char(out@[21 - j2] as char));
            }
        }
        let r = ascii_to_string(&out);
        proof {
            assert forall|i: int| 0 <= i < 22 implies is_base62_char(#[trigger] r@[i]) by {
                assert(r@[i] == out@[i] as char);
                assert(is_base62_char(out@[i] as char));
            }
            lemma_base62_of_len(v0, 22);
            assert forall|i: int| 0 <= i < 22 implies r@[i] == base62_of(v0, 22)[i] by {
                let j2 = 21 - i;
                lemma_base62_of_index(v0, 22, j2 as nat);
                assert(out@[21 - j2] as char == base62_char((v0 / pow62(j2 as nat)) % 62));
                assert(r@[i] == out@[i] as char);
            }
            assert(r@ =~= base62_of(v0, 22));
        }
        r
    }
}

/// 256 to the power is increasing in the exponent.
proof fn lemma_pow256_increases(a: nat, b: nat)
    ensures
        a <= b ==> pow256(a) <= pow256(b),
    decreases b,
{
    if a < b {
        lemma_pow256_increases(a, (b - 1) as nat);
        lemma_pow256_pos((b - 1) as nat);
    }
}

proof fn lemma_pow256_pos(n: nat)
    ensures
        pow256(n) > 0,
    decreases n,
{
    if n > 0 {
        lemma_pow256_pos((n - 1) as nat);
    }
}

/// LAW: on sixteen-byte identifiers, a strictly smaller stamp in the top
/// eight bytes gives a strictly smaller identifier under big-endian
/// byte-wise comparison, whatever the remaining bytes hold.
pub proof fn lemma_id_order(a: Id128, b: Id128)
    requires
        a.byte_seq().len() == 16,
        b.byte_seq().len() == 16,
        be_value(a.byte_seq().take(8)) < be_value(b.byte_seq().take(8)),
    ensures
        bytes_lt(a.byte_seq(), b.byte_seq()),
{
    let at = a.byte_seq().take(8);
    let bt = b.byte_seq().take(8);
    lemma_be_value_order(at, bt);
    let i = choose|i: int|
        0 <= i < at.len() && i < bt.len() && (forall|j: int| 0 <= j < i ==> at[j] == bt[j]) && at[i]
            < bt[i];
    assert(a.byte_seq()[i] == at[i] && b.byte_seq()[i] == bt[i]);
    assert forall|j: int| 0 <= j < i implies a.byte_seq()[j] == b.byte_seq()[j] by {
        assert(at[j] == a.byte_seq()[j]);
        assert(bt[j] == b.byte_seq()[j]);
    }
    assert(bytes_lt(a.byte_seq(), b.byte_seq()));
}

/// Strict lexicographic order on character strings, by code point.
pub open spec fn chars_lt(a: Seq<char>, b: Seq<char>) -> bool {
    exists|i: int|
        0 <= i < a.len() && i < b.len() && (forall|j: int| 0 <= j < i ==> a[j] == b[j]) && (
        a[i] as u32) < (b[i] as u32)
}

/// The code point of one base-62 digit character.
pub open spec fn base62_code(d: int) -> int {
    if d < 10 {
        48 + d
    } else if d < 36 {
        55 + d
    } else {
        61 + d
    }
}

proof fn lemma_base62_char_code(d: int)
    requires
        0 <= d < 62,
    ensures
        base62_char(d) as u32 == base62_code(d),
{
}

/// Smaller digits encode as smaller code points.
proof fn lemma_base62_code_increases(d1: int, d2: int)
    requires
        0 <= d1 < d2 < 62,
    ensures
        (base62_char(d1) as u32) < (base62_char(d2) as u32),
{
    lemma_base62_char_code(d1);
    lemma_base62_char_code(d2);
}

/// LAW: the fixed-width base-62 encoding preserves order — a smaller value
/// encodes to a lexicographically smaller string, so string order matches
/// numeric order of identifiers.
pub proof fn lemma_base62_order(v1: int, v2: int, n: nat)
    requires
        0 <= v1 < v2 < pow62(n),
    ensures
        chars_lt(base62_of(v1, n), base62_of(v2, n)),
    decreases n,
{
    lemma_base62_of_len(v1, n);
    lemma_base62_of_len(v2, n);
    assert(n > 0);
    let a = base62_of(v1, n);
    let b = base62_of(v2, n);
    let q1 = v1 / 62;
    let q2 = v2 / 62;
    lemma_div_is_ordered(v1, v2, 62);
    if q1 == q2 {
        assert(v1 % 62 < v2 % 62) by {
            assert(v1 == 62 * q1 + v1 % 62);
            assert(v2 == 62 * q2 + v2 % 62);
        }
        lemma_base62_code_increases(v1 % 62, v2 % 62);
        let i = n - 1;
        assert(a[i] == base62_char(v1 % 62) && b[i] == base62_char(v2 % 62));
        assert forall|j: int| 0 <= j < i implies a[j] == b[j] by {
            assert(a[j] == base62_of(q1, (n - 1) as nat)[j]);
            assert(b[j] == base62_of(q2, (n - 1) as nat)[j]);
        }
        assert(chars_lt(a, b));
    } else {
        assert(q2 < pow62((n - 1) as nat)) by {
            assert(pow62(n) == 62 * pow62((n - 1) as nat));
            assert(v2 == 62 * q2 + v2 % 62);
            if q2 >= pow62((n - 1) as nat) {
                assert(62 * q2 >= 62 * pow62((n - 1) as nat));
            }
        }
        lemma_base62_order(q1, q2, (n - 1) as nat);
        let ad = base62_of(q1, (n - 1) as nat);
        let bd = base62_of(q2, (n - 1) as nat);
        let i = choose|i: int|
            0 <= i < ad.len() && i < bd.len() && (forall|j: int| 0 <= j < i ==> ad[j] == bd[j]) && (
            ad[i] as u32) < (bd[i] as u32);
        assert(a[i] == ad[i] && b[i] == bd[i]);
        assert forall|j: int| 0 <= j < i implies a[j] == b[j] by {
            assert(a[j] == ad[j]);
            assert(b[j] == bd[j]);
        }
        assert(chars_lt(a, b));
    }
}

/// LAW: a smaller identifier value encodes to a lexicographically smaller
/// 22-character string, so the textual ids sort exactly as the raw ids do.
pub proof fn lemma_encoding_order(a: Id128, b: Id128)
    requires
        a.byte_seq().len() == 16,
        b.byte_seq().len() == 16,
        be_value(a.byte_seq()) < be_value(b.byte_seq()),
    ensures
        chars_lt(base62_of(be_value(a.byte_seq()), 22), base62_of(be_value(b.byte_seq()), 22)),
{
    lemma_be_value_bounds(a.byte_seq());
    lemma_be_value_bounds(b.byte_seq());
    assert(pow256(16) <= pow62(22)) by {
        reveal_with_fuel(pow256, 17);
        reveal_with_fuel(pow62, 23);
        assert(pow256(16) == 0x100000000000000000000000000000000);
        assert(pow62(22) == 2707803647802660400290261537185326956544);
    }
    lemma_base62_order(be_value(a.byte_seq()), be_value(b.byte_seq()), 22);
}

} // verus!
