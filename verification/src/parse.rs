//! Decimal parsing for small configuration values.

use vstd::prelude::*;
use vstd::string::StrSliceExecFns;

verus! {

/// Whether `c` is a decimal digit.
pub open spec fn is_dec_digit(c: char) -> bool {
    48 <= c as u32 <= 57
}

/// Numeric value of a decimal digit.
pub open spec fn dec_digit(c: char) -> int {
    c as u32 - 48
}

/// The digit part of a decimal literal: an optional leading plus sign is
/// dropped.
pub open spec fn dec_digits_of(s: Seq<char>) -> Seq<char> {
    if s.len() > 0 && s[0] == '+' {
        s.drop_first()
    } else {
        s
    }
}

/// Whether every character is a decimal digit.
pub open spec fn all_dec_digits(s: Seq<char>) -> bool {
    forall|i: int| 0 <= i < s.len() ==> is_dec_digit(#[trigger] s[i])
}

/// Value of a string of decimal digits, most significant first.
pub open spec fn dec_value(s: Seq<char>) -> int
    decreases s.len(),
{
    if s.len() == 0 {
        0
    } else {
        dec_value(s.drop_last()) * 10 + dec_digit(s.last())
    }
}

/// Whether `s` denotes a 16-bit value: at least one digit after an optional
/// leading plus sign, and a value of at most 65535.
pub open spec fn parses_to_u16(s: Seq<char>) -> bool {
    let d = dec_digits_of(s);
    d.len() > 0 && all_dec_digits(d) && dec_value(d) <= 65535
}

proof fn lemma_dec_value_nonneg(s: Seq<char>)
    requires
        all_dec_digits(s),
    ensures
        dec_value(s) >= 0,
    decreases s.len(),
{
    if s.len() > 0 {
        assert forall|i: int| 0 <= i < s.drop_last().len() implies is_dec_digit(
            #[trigger] s.drop_last()[i],
        ) by {
            assert(s.drop_last()[i] == s[i]);
        }
        lemma_dec_value_nonneg(s.drop_last());
        assert(s[s.len() - 1] == s.last());
    }
}

/// The value of a digit string is at least the value of any prefix.
proof fn lemma_dec_value_prefix(s: Seq<char>, i: int)
    requires
        all_dec_digits(s),
        0 <= i <= s.len(),
    ensures
        dec_value(s.take(i)) <= dec_value(s),
    decreases s.len() - i,
{
    if i < s.len() {
        lemma_dec_value_prefix(s, i + 1);
        assert(s.take(i + 1).drop_last() =~= s.take(i));
        assert(s.take(i + 1).last() == s[i]);
        assert forall|j: int| 0 <= j < s.take(i).len() implies is_dec_digit(
            #[trigger] s.take(i)[j],
        ) by {
            assert(s.take(i)[j] == s[j]);
        }
        lemma_dec_value_nonneg(s.take(i));
        assert(is_dec_digit(s[i]));
        assert(dec_value(s.take(i + 1)) == dec_value(s.take(i)) * 10 + dec_digit(s[i]));
    } else {
        assert(s.take(i) =~= s);
    }
}

/// Parse a 16-bit decimal value as std's `u16` parser accepts it: at least
/// one digit after an optional leading plus sign, value at most 65535;
/// anything else is rejected.
pub fn parse_u16(s: String) -> (r: Option<u16>)
    ensures
        parses_to_u16(s@) ==> r == Some::<u16>(dec_value(dec_digits_of(s@)) as u16),
        !parses_to_u16(s@) ==> r == None::<u16>,
{
    let st = s.as_str();
    let len = st.unicode_len();
    let mut start: usize = 0;
    if len > 0 && st.get_char(0) == '+' {
        start = 1;
    }
    let ghost d = dec_digits_of(s@);
    proof {
        if start == 1 {
            assert(d =~= s@.skip(1));
        } else {
            assert(d =~= s@.skip(0));
        }
    }
    if start >= len {
        assert(d.len() == 0);
        return None;
    }
    let mut acc: u32 = 0;
    let mut j: usize = start;
    while j < len
        invariant
            start <= j <= len,
            len == s@.len(),
            st@ == s@,
            start <= 1,
            d == dec_digits_of(s@),
            d =~= s@.skip(start as int),
            all_dec_digits(d.take(j - start)),
            acc == dec_value(d.take(j - start)),
            acc <= 65535,
        decreases len - j,
    {
        let c = st.get_char(j);
        let u = c as u32;
        proof {
            assert(d[j - start] == s@[j as int]);
        }
        if u < 48 || u > 57 {
            proof {
                assert(!is_dec_digit(d[j - start]));
                assert(!all_dec_digits(d));
            }
            return None;
        }
        let dg = u - 48;
        let acc2 = acc * 10 + dg;
        proof {
            assert(d.take(j - start + 1).drop_last() =~= d.take(j - start));
            assert(d.take(j - start + 1).last() == d[j - start]);
            assert forall|i: int| 0 <= i < d.take(j - start + 1).len() implies is_dec_digit(
                #[trigger] d.take(j - start + 1)[i],
            ) by {
                assert(d.take(j - start + 1)[i] == d.take(j - start).push(d[j - start])[i]);
                if i < j - start {
                    assert(d.take(j - start + 1)[i] == d.take(j - start)[i]);
                }
            }
            assert(acc2 == dec_value(d.take(j - start + 1)));
        }
        if acc2 > 65535 {
            proof {
                if all_dec_digits(d) {
                    lemma_dec_value_prefix(d, j - start + 1);
                    assert(dec_value(d) >= acc2);
                }
            }
            return None;
        }
        acc = acc2;
        j += 1;
    }
    proof {
        assert(d.take(len - start) =~= d);
        assert(d.len() > 0);
        assert(parses_to_u16(s@));
    }
    Some(acc as u16)
}

} // verus!
