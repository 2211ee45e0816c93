//! Reading an integer out of a configuration value's text.
//!
//! The aggregator's integer lookups coerce the merged text under one
//! documented rule: an optional sign, one or more decimal digits, and an
//! optional scaling suffix `k`/`K` (by 1024), `m`/`M` (by 1024 squared) or
//! `g`/`G` (by 1024 cubed), with the scaled value required to fit a 64-bit
//! signed integer. Any other text — and any value out of that range — is
//! not an integer and the lookup reports the key as absent.

use vstd::prelude::*;
use vstd::string::*;

verus! {

/// True for the ten decimal digit characters.
pub open spec fn is_dec_digit(c: char) -> bool {
    48 <= c as int && c as int <= 57
}

/// The numeric value of a decimal digit character.
pub open spec fn digit_value(c: char) -> int {
    c as int - 48
}

/// True when every character of `s` is a decimal digit.
pub open spec fn all_dec_digits(s: Seq<char>) -> bool {
    forall|i: int| 0 <= i < s.len() ==> is_dec_digit(#[trigger] s[i])
}

/// The value of `s` read as a decimal numeral, most significant digit
/// first. Meaningful only when `all_dec_digits(s)` holds.
pub open spec fn digits_value(s: Seq<char>) -> int
    decreases s.len(),
{
    if s.len() == 0 {
        0
    } else {
        digits_value(s.drop_last()) * 10 + digit_value(s.last())
    }
}

/// True for the six scaling suffix characters.
pub open spec fn is_scale_suffix(c: char) -> bool {
    c == 'k' || c == 'K' || c == 'm' || c == 'M' || c == 'g' || c == 'G'
}

/// The factor a scaling suffix multiplies the numeral by.
pub open spec fn suffix_scale(c: char) -> int {
    if c == 'k' || c == 'K' {
        1024
    } else if c == 'm' || c == 'M' {
        1048576
    } else {
        1073741824
    }
}

/// The sign `s` denotes: -1 under a leading `-`, else 1.
pub open spec fn sign_of(s: Seq<char>) -> int {
    if s.len() > 0 && s[0] == '-' {
        -1
    } else {
        1
    }
}

/// `s` without its optional leading sign character.
pub open spec fn unsigned_part(s: Seq<char>) -> Seq<char> {
    if s.len() > 0 && (s[0] == '-' || s[0] == '+') {
        s.drop_first()
    } else {
        s
    }
}

/// The digit characters of `s`: what stands between the optional sign and
/// the optional scaling suffix.
pub open spec fn digits_part(s: Seq<char>) -> Seq<char> {
    let body = unsigned_part(s);
    if body.len() > 0 && is_scale_suffix(body.last()) {
        body.drop_last()
    } else {
        body
    }
}

/// The scaling factor of `s`: its suffix's factor, or 1 without a suffix.
pub open spec fn scale_part(s: Seq<char>) -> int {
    let body = unsigned_part(s);
    if body.len() > 0 && is_scale_suffix(body.last()) {
        suffix_scale(body.last())
    } else {
        1
    }
}

/// True when `s` is shaped as an integer: an optional sign, then at least
/// one decimal digit, then an optional scaling suffix.
pub open spec fn is_config_int(s: Seq<char>) -> bool {
    digits_part(s).len() > 0 && all_dec_digits(digits_part(s))
}

/// The mathematical value `s` denotes when `is_config_int(s)` holds.
pub open spec fn config_int_value(s: Seq<char>) -> int {
    sign_of(s) * digits_value(digits_part(s)) * scale_part(s)
}

/// The integer read from `s`, if any: `s` must be shaped as an integer and
/// its scaled value must fit a 64-bit signed integer; otherwise `None`.
pub open spec fn config_int_of(s: Seq<char>) -> Option<i64> {
    if is_config_int(s) && i64::MIN as int <= config_int_value(s) && config_int_value(s)
        <= i64::MAX as int {
        Some(config_int_value(s) as i64)
    } else {
        None
    }
}

/// A numeral is never negative.
proof fn lemma_digits_value_nonneg(s: Seq<char>)
    requires
        all_dec_digits(s),
    ensures
        digits_value(s) >= 0,
    decreases s.len(),
{
    if s.len() > 0 {
        assert(all_dec_digits(s.drop_last()));
        lemma_digits_value_nonneg(s.drop_last());
    }
}

/// Extending a numeral by digits never shrinks its value: once a prefix is
/// already too large, the whole numeral is too large.
proof fn lemma_digits_value_extend(s: Seq<char>, i: int)
    requires
        0 <= i <= s.len(),
        digits_value(s.take(i)) >= 0,
        forall|j: int| i <= j < s.len() ==> is_dec_digit(#[trigger] s[j]),
    ensures
        digits_value(s) >= digits_value(s.take(i)),
    decreases s.len() - i,
{
    if i < s.len() {
        let shorter = s.drop_last();
        assert(shorter.take(i) =~= s.take(i));
        lemma_digits_value_extend(shorter, i);
        assert(digits_value(s) == digits_value(shorter) * 10 + digit_value(s.last()));
        assert(digits_value(shorter) >= 0);
    } else {
        assert(s.take(i) =~= s);
    }
}

/// Reads an integer from `s` exactly as [`config_int_of`] describes.
pub fn parse_config_int(s: &str) -> (r: Option<i64>)
    ensures
        r == config_int_of(s@),
{
    let n = s.unicode_len();
    let mut start: usize = 0;
    let mut neg = false;
    if n > 0 {
        let c0 = s.get_char(0);
        if c0 == '-' {
            neg = true;
            start = 1;
        } else if c0 == '+' {
            start = 1;
        }
    }
    let mut end = n;
    let mut scale: u64 = 1;
    if n > start {
        let cl = s.get_char(n - 1);
        if cl == 'k' || cl == 'K' {
            scale = 1024;
            end = n - 1;
        } else if cl == 'm' || cl == 'M' {
            scale = 1048576;
            end = n - 1;
        } else if cl == 'g' || cl == 'G' {
            scale = 1073741824;
            end = n - 1;
        }
    }
    let ghost digits = s@.subrange(start as int, end as int);
    proof {
        assert(unsigned_part(s@) =~= s@.subrange(start as int, n as int));
        assert(digits_part(s@) =~= digits);
        assert(scale_part(s@) == scale as int);
        assert(sign_of(s@) == if neg { -1int } else { 1int });
    }
    if end == start {
        return None;
    }
    let mut mag: u128 = 0;
    let mut idx = start;
    while idx < end
        invariant
            start <= idx <= end <= n,
            n == s@.len(),
            digits == s@.subrange(start as int, end as int),
            digits == digits_part(s@),
            scale as int == scale_part(s@),
            1 <= scale <= 0x40000000,
            sign_of(s@) == (if neg {
                -1int
            } else {
                1int
            }),
            all_dec_digits(digits.take(idx - start)),
            mag == digits_value(digits.take(idx - start)),
            mag <= 0x8000_0000_0000_0000u128,
        decreases end - idx,
    {
        let c = s.get_char(idx);
        let u = c as u32;
        if u < 48 || u > 57 {
            proof {
                assert(digits[idx - start] == c);
                assert(!is_dec_digit(c));
                assert(!all_dec_digits(digits));
            }
            return None;
        }
        let d = (u - 48) as u128;
        mag = mag * 10 + d;
        proof {
            assert(digits.take(idx - start + 1).drop_last() =~= digits.take(idx - start));
            assert(digits.take(idx - start + 1).last() == c);
            assert(mag == digits_value(digits.take(idx - start + 1)));
        }
        idx += 1;
        if mag > 0x8000_0000_0000_0000u128 {
            proof {
                if is_config_int(s@) {
                    lemma_digits_value_extend(digits, idx - start);
                    lemma_digits_value_nonneg(digits);
                    assert(digits_value(digits) > 0x8000_0000_0000_0000);
                    assert(scale_part(s@) >= 1);
                    let dv = digits_value(digits);
                    let sc = scale_part(s@);
                    assert(dv * sc >= dv * 1 == dv) by (nonlinear_arith)
                        requires
                            dv > 0,
                            sc >= 1,
                    ;
                    if sign_of(s@) == 1 {
                        assert(config_int_value(s@) == dv * sc);
                    } else {
                        assert(config_int_value(s@) == -(dv * sc));
                    }
                }
            }
            return None;
        }
    }
    proof {
        assert(digits.take(end - start) =~= digits);
        assert(is_config_int(s@));
        let dv = digits_value(digits);
        let sc = scale as int;
        assert(dv * sc <= 0x8000_0000_0000_0000 * 0x40000000) by (nonlinear_arith)
            requires
                0 <= dv <= 0x8000_0000_0000_0000,
                1 <= sc <= 0x40000000,
        ;
        assert(dv * sc >= dv * 1 == dv) by (nonlinear_arith)
            requires
                dv >= 0,
                sc >= 1,
        ;
    }
    let scaled: u128 = mag * (scale as u128);
    proof {
        let dv = digits_value(digits);
        let sc = scale as int;
        assert(scaled == dv * sc);
        if neg {
            assert(-1 * dv * sc == -(dv * sc)) by (nonlinear_arith);
            assert(config_int_value(s@) == -(dv * sc));
        } else {
            assert(1 * dv * sc == dv * sc) by (nonlinear_arith);
            assert(config_int_value(s@) == dv * sc);
        }
    }
    if neg {
        if scaled > 0x8000_0000_0000_0000u128 {
            return None;
        }
        if scaled == 0x8000_0000_0000_0000u128 {
            return Some(i64::MIN);
        }
        Some(-(scaled as i64))
    } else {
        if scaled > 0x7fff_ffff_ffff_ffffu128 {
            return None;
        }
        Some(scaled as i64)
    }
}

} // verus!
