//! Signed 64-bit decimal numerals, the form the manifest's amount column
//! carries: an optional sign followed by one or more digits, with the value
//! required to fit in an `i64`.
use vstd::prelude::*;

verus! {

/// Smallest magnitude that no longer fits a non-negative `i64`; the negative
/// range reaches one further.
pub const MAGNITUDE_LIMIT: u64 = 0x8000_0000_0000_0000;

pub open spec fn is_digit(b: u8) -> bool {
    48 <= b <= 57
}

pub open spec fn digit_val(b: u8) -> int {
    b - 48
}

pub open spec fn all_digits(s: Seq<u8>) -> bool {
    forall|i: int| 0 <= i < s.len() ==> is_digit(#[trigger] s[i])
}

/// Value of a digit string read most-significant first.
pub open spec fn digits_val(s: Seq<u8>) -> int
    decreases s.len(),
{
    if s.len() == 0 {
        0
    } else {
        digits_val(s.drop_last()) * 10 + digit_val(s.last())
    }
}

/// The numeral with an optional leading `+` or `-` removed.
pub open spec fn unsigned_part(s: Seq<u8>) -> Seq<u8> {
    if s.len() > 0 && (s[0] == 43 || s[0] == 45) {
        s.drop_first()
    } else {
        s
    }
}

pub open spec fn sign_of(s: Seq<u8>) -> int {
    if s.len() > 0 && s[0] == 45 {
        -1
    } else {
        1
    }
}

/// A well-formed `i64` numeral: a non-empty digit string after the optional
/// sign, and a value within the `i64` range.
pub open spec fn int_text_valid(s: Seq<u8>) -> bool {
    &&& unsigned_part(s).len() >= 1
    &&& all_digits(unsigned_part(s))
    &&& i64::MIN <= sign_of(s) * digits_val(unsigned_part(s)) <= i64::MAX
}

pub open spec fn int_text_val(s: Seq<u8>) -> int {
    sign_of(s) * digits_val(unsigned_part(s))
}

/// What parsing a byte string as an `i64` numeral yields.
pub open spec fn parse_i64_spec(s: Seq<u8>) -> Option<i64> {
    if int_text_valid(s) {
        Some(int_text_val(s) as i64)
    } else {
        None
    }
}

proof fn lemma_digits_val_nonneg(s: Seq<u8>)
    requires
        all_digits(s),
    ensures
        digits_val(s) >= 0,
    decreases s.len(),
{
    if s.len() > 0 {
        assert forall|i: int| 0 <= i < s.drop_last().len() implies is_digit(
            #[trigger] s.drop_last()[i],
        ) by {
            assert(s.drop_last()[i] == s[i]);
        }
        lemma_digits_val_nonneg(s.drop_last());
    }
}

/// Appending digits never shrinks the value.
proof fn lemma_digits_val_prefix_le(s: Seq<u8>, k: int)
    requires
        all_digits(s),
        0 <= k <= s.len(),
    ensures
        digits_val(s.take(k)) <= digits_val(s),
    decreases s.len() - k,
{
    if k < s.len() {
        lemma_digits_val_prefix_le(s, k + 1);
        assert(s.take(k + 1).drop_last() =~= s.take(k));
        assert forall|i: int| 0 <= i < s.take(k).len() implies is_digit(
            #[trigger] s.take(k)[i],
        ) by {
            assert(s.take(k)[i] == s[i]);
        }
        lemma_digits_val_nonneg(s.take(k));
        assert(digits_val(s.take(k + 1)) == digits_val(s.take(k)) * 10 + digit_val(s[k]));
        assert(digits_val(s.take(k)) * 10 >= digits_val(s.take(k))) by (nonlinear_arith)
            requires
                digits_val(s.take(k)) >= 0,
        ;
    } else {
        assert(s.take(k) =~= s);
    }
}

/// Parse a byte string as a signed decimal `i64`, exactly as the numeral
/// grammar above defines it.
pub fn parse_i64(s: &[u8]) -> (r: Option<i64>)
    ensures
        r == parse_i64_spec(s@),
{
    let mut i: usize = 0;
    let mut neg = false;
    if s.len() > 0 {
        let b0 = *vstd::slice::slice_index_get(s, 0);
        if b0 == 43 || b0 == 45 {
            neg = b0 == 45;
            i = 1;
        }
    }
    let ghost m = unsigned_part(s@);
    let ghost start = i as int;
    proof {
        assert(m =~= s@.skip(start));
    }
    if i == s.len() {
        return None;
    }
    let mut acc: u64 = 0;
    while i < s.len()
        invariant
            0 <= start <= i as int <= s@.len(),
            m == s@.skip(start),
            m == unsigned_part(s@),
            all_digits(m.take(i - start)),
            acc as int == digits_val(m.take(i - start)),
            acc <= MAGNITUDE_LIMIT,
        decreases s@.len() - i,
    {
        let b = *vstd::slice::slice_index_get(s, i);
        proof {
            assert(m.len() == s@.len() - start);
            assert(s@.skip(start)[i as int - start] == s@[i as int]);
            assert(m[i - start] == s@[i as int]);
        }
        if b < 48 || b > 57 {
            proof {
                assert(!is_digit(m[i - start]));
            }
            return None;
        }
        let d = (b - 48) as u64;
        let ghost k = i as int - start;
        proof {
            assert(m.take(k + 1).drop_last() =~= m.take(k));
            assert(m.take(k + 1).last() == m[k]);
            assert(digits_val(m.take(k + 1)) == digits_val(m.take(k)) * 10 + digit_val(m[k]));
            assert forall|t: int| 0 <= t < m.take(k + 1).len() implies is_digit(
                #[trigger] m.take(k + 1)[t],
            ) by {
                assert(m.take(k + 1)[t] == m[t]);
            }
        }
        if acc > (MAGNITUDE_LIMIT - d) / 10 {
            proof {
                lemma_digits_val_nonneg(m.take(k));
                assert(acc as int * 10 + d as int > MAGNITUDE_LIMIT) by (nonlinear_arith)
                    requires
                        acc as int > ((MAGNITUDE_LIMIT - d as int) / 10),
                        0 <= d as int <= 9,
                        acc as int >= 0,
                ;
                if all_digits(m) {
                    lemma_digits_val_prefix_le(m, k + 1);
                    assert(digits_val(m) > MAGNITUDE_LIMIT);
                    assert(sign_of(s@) * digits_val(m) > i64::MAX || sign_of(s@) * digits_val(m)
                        < i64::MIN) by (nonlinear_arith)
                        requires
                            digits_val(m) > MAGNITUDE_LIMIT as int,
                            sign_of(s@) == 1 || sign_of(s@) == -1,
                    ;
                }
            }
            return None;
        }
        proof {
            assert(acc as int * 10 + d as int <= MAGNITUDE_LIMIT) by (nonlinear_arith)
                requires
                    acc as int <= ((MAGNITUDE_LIMIT - d as int) / 10),
                    0 <= d as int <= 9,
                    acc as int >= 0,
            ;
        }
        acc = acc * 10 + d;
        i = i + 1;
    }
    proof {
        assert(m.take(i - start) =~= m);
    }
    if neg {
        proof {
            assert(sign_of(s@) == -1);
        }
        if acc == MAGNITUDE_LIMIT {
            Some(i64::MIN)
        } else {
            Some(-(acc as i64))
        }
    } else {
        proof {
            assert(sign_of(s@) == 1);
        }
        if acc >= MAGNITUDE_LIMIT {
            return None;
        }
        Some(acc as i64)
    }
}

} // verus!
