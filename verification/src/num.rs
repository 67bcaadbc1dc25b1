//! Decimal number texts, read into integer thousandths.
//!
//! The judge reports scores and resource usage as JSON numbers.  The
//! library holds every such quantity as a whole number of thousandths of
//! its unit, so a score of `87.5` is the integer `87500`.  This module
//! reads a number text of the shape `-? digits (. digits)? ([eE] [+-]?
//! digits)?` into a sign and a magnitude in thousandths, truncating any
//! fraction finer than a thousandth.  Texts with more than fifteen
//! mantissa digits or more than four exponent digits, and magnitudes of
//! a thousand million million thousandths or more, are rejected: the
//! quantities the judge reports stay far below these bounds.

use vstd::arithmetic::div_mod::lemma_basic_div;
use vstd::arithmetic::power::lemma_pow_increases;
use vstd::arithmetic::power::lemma_pow_strictly_increases;
use vstd::arithmetic::power::pow;
use vstd::prelude::*;

verus! {

/// Magnitudes must stay below this many thousandths.
pub const MILLI_BOUND: u64 = 1000000000000000;

pub open spec fn is_digit(c: char) -> bool {
    48 <= c as u32 && c as u32 <= 57
}

pub open spec fn digit_val(c: char) -> int {
    c as u32 - 48
}

/// Index just past the run of digits that starts at `i`.
pub open spec fn digits_end(s: Seq<char>, i: int) -> int
    decreases s.len() - i,
{
    if i < 0 || i >= s.len() || !is_digit(s[i]) {
        i
    } else {
        digits_end(s, i + 1)
    }
}

pub proof fn lemma_digits_end(s: Seq<char>, i: int)
    requires
        0 <= i <= s.len(),
    ensures
        i <= digits_end(s, i) <= s.len(),
        forall|k: int| i <= k < digits_end(s, i) ==> is_digit(#[trigger] s[k]),
        digits_end(s, i) < s.len() ==> !is_digit(s[digits_end(s, i)]),
    decreases s.len() - i,
{
    if i < s.len() && is_digit(s[i]) {
        lemma_digits_end(s, i + 1);
    }
}

/// The value of a digit sequence read in base ten.
pub open spec fn dec_val(s: Seq<char>) -> int
    decreases s.len(),
{
    if s.len() == 0 {
        0
    } else {
        dec_val(s.drop_last()) * 10 + digit_val(s.last())
    }
}

pub open spec fn all_digits(s: Seq<char>) -> bool {
    forall|i: int| 0 <= i < s.len() ==> is_digit(#[trigger] s[i])
}

pub proof fn lemma_dec_val_bound(s: Seq<char>)
    requires
        all_digits(s),
    ensures
        0 <= dec_val(s) < pow(10, s.len() as nat),
    decreases s.len(),
{
    if s.len() == 0 {
        assert(pow(10, 0) == 1) by {
            reveal_with_fuel(pow, 1);
        }
    } else {
        let head = s.drop_last();
        assert(all_digits(head)) by {
            assert forall|i: int| 0 <= i < head.len() implies is_digit(#[trigger] head[i]) by {
                assert(head[i] == s[i]);
            }
        }
        lemma_dec_val_bound(head);
        assert(is_digit(s.last()));
        assert(0 <= digit_val(s.last()) <= 9);
        lemma_pow10_step((s.len() - 1) as nat);
        assert(pow(10, s.len() as nat) == 10 * pow(10, (s.len() - 1) as nat));
        assert(dec_val(head) * 10 <= (pow(10, (s.len() - 1) as nat) - 1) * 10);
    }
}


/// One more power of ten.
pub proof fn lemma_pow10_step(e: nat)
    ensures
        pow(10, e + 1) == 10 * pow(10, e),
{
    reveal(pow);
    assert(pow(10, e + 1) == 10 * pow(10, ((e + 1) - 1) as nat));
}

/// The magnitude in thousandths of a mantissa `m` with `f` fraction
/// digits and decimal exponent `e`: `m * 10^(3 - f + e)`, truncated.
pub open spec fn milli_of(m: int, f: int, e: int) -> int {
    let shift = 3 - f + e;
    if shift >= 0 {
        m * pow(10, shift as nat)
    } else {
        m / pow(10, (-shift) as nat)
    }
}

/// The reading of a whole number text: sign and magnitude in
/// thousandths, or nothing if the text is not a number of the accepted
/// shape and size.
pub open spec fn spec_parse_number(s: Seq<char>) -> Option<(bool, u64)> {
    let neg = s.len() > 0 && s[0] == '-';
    let i0: int = if neg { 1 } else { 0 };
    let i1 = digits_end(s, i0);
    if i1 == i0 {
        None
    } else {
        let has_frac = i1 < s.len() && s[i1] == '.';
        let f0: int = if has_frac { i1 + 1 } else { i1 };
        let f1 = digits_end(s, f0);
        if has_frac && f1 == f0 {
            None
        } else {
            let digits = s.subrange(i0, i1) + s.subrange(f0, f1);
            if digits.len() > 15 {
                None
            } else if f1 == s.len() {
                spec_finish(neg, dec_val(digits), f1 - f0, 0)
            } else if s[f1] == 'e' || s[f1] == 'E' {
                let esign = f1 + 1 < s.len() && (s[f1 + 1] == '+' || s[f1 + 1] == '-');
                let eneg = f1 + 1 < s.len() && s[f1 + 1] == '-';
                let d0: int = if esign { f1 + 2 } else { f1 + 1 };
                let d1 = digits_end(s, d0);
                if d1 != s.len() || d1 == d0 || d1 - d0 > 4 {
                    None
                } else {
                    let e = if eneg { -dec_val(s.subrange(d0, d1)) } else { dec_val(s.subrange(d0, d1)) };
                    spec_finish(neg, dec_val(digits), f1 - f0, e)
                }
            } else {
                None
            }
        }
    }
}

pub open spec fn spec_finish(neg: bool, m: int, f: int, e: int) -> Option<(bool, u64)> {
    let v = milli_of(m, f, e);
    if v < MILLI_BOUND {
        Some((neg, v as u64))
    } else {
        None
    }
}

/// Index just past the run of digits of `s` that starts at `i`.
fn digits_end_exec(s: &str, i: usize, n: usize) -> (j: usize)
    requires
        n == s@.len(),
        i <= n,
    ensures
        j == digits_end(s@, i as int),
        i <= j <= n,
{
    let mut j = i;
    while j < n
        invariant
            i <= j <= n,
            n == s@.len(),
            digits_end(s@, i as int) == digits_end(s@, j as int),
            forall|k: int| i <= k < j ==> is_digit(#[trigger] s@[k]),
        ensures
            j == n || !is_digit(s@[j as int]),
        decreases n - j,
    {
        let c = s.get_char(j);
        let u = c as u32;
        if !(48 <= u && u <= 57) {
            break;
        }
        j += 1;
    }
    proof {
        lemma_digits_end(s@, j as int);
    }
    j
}

/// The base-ten value of the digit run `s[from..to]`, accumulated onto
/// the digits already read.
fn accumulate_digits(s: &str, from: usize, to: usize, init: u64, Ghost(prefix): Ghost<Seq<char>>) -> (r: u64)
    requires
        to <= s@.len(),
        from <= to,
        forall|k: int| from <= k < to ==> is_digit(#[trigger] s@[k]),
        all_digits(prefix),
        init == dec_val(prefix),
        prefix.len() + (to - from) <= 15,
    ensures
        r == dec_val(prefix + s@.subrange(from as int, to as int)),
        r < MILLI_BOUND,
{
    let ghost whole = prefix + s@.subrange(from as int, to as int);
    let mut acc = init;
    let mut k = from;
    proof {
        assert(prefix + s@.subrange(from as int, from as int) =~= prefix);
        lemma_dec_val_bound(prefix);
        lemma_pow_increases(10, prefix.len() as nat, 15);
        assert(pow(10, 15) == MILLI_BOUND) by {
            reveal_with_fuel(pow, 16);
        }
    }
    while k < to
        invariant
            from <= k <= to <= s@.len(),
            forall|j: int| from <= j < to ==> is_digit(#[trigger] s@[j]),
            all_digits(prefix),
            prefix.len() + (to - from) <= 15,
            acc == dec_val(prefix + s@.subrange(from as int, k as int)),
            acc < pow(10, (prefix.len() + k - from) as nat),
        decreases to - k,
    {
        let c = s.get_char(k);
        let d = (c as u32 - 48) as u64;
        proof {
            let cur = prefix + s@.subrange(from as int, k as int);
            let next = prefix + s@.subrange(from as int, k + 1 as int);
            assert(next.drop_last() =~= cur);
            assert(next.last() == s@[k as int]);
            assert(is_digit(s@[k as int]));
            assert(dec_val(next) == dec_val(cur) * 10 + digit_val(s@[k as int]));
            lemma_pow_increases(10, (prefix.len() + k + 1 - from) as nat, 15);
            assert(pow(10, 15) == MILLI_BOUND) by {
                reveal_with_fuel(pow, 16);
            }
            lemma_pow10_step((prefix.len() + k - from) as nat);
            assert(pow(10, (prefix.len() + k + 1 - from) as nat)
                == 10 * pow(10, (prefix.len() + k - from) as nat));
        }
        acc = acc * 10 + d;
        k += 1;
    }
    proof {
        lemma_dec_val_bound(whole);
        lemma_pow_increases(10, whole.len() as nat, 15);
        assert(pow(10, 15) == MILLI_BOUND) by {
            reveal_with_fuel(pow, 16);
        }
    }
    acc
}

/// Ten to the given power.
fn pow10_u64(e: u64) -> (r: u64)
    requires
        e <= 18,
    ensures
        r == pow(10, e as nat),
{
    let mut acc: u64 = 1;
    let mut k: u64 = 0;
    proof {
        assert(pow(10, 0) == 1) by {
            reveal_with_fuel(pow, 1);
        }
    }
    while k < e
        invariant
            k <= e <= 18,
            acc == pow(10, k as nat),
        decreases e - k,
    {
        proof {
            lemma_pow_increases(10, k as nat, 17);
            assert(pow(10, 17) == 100000000000000000) by {
                reveal_with_fuel(pow, 18);
            }
            lemma_pow10_step(k as nat);
            assert(pow(10, (k + 1) as nat) == 10 * pow(10, k as nat));
        }
        acc = acc * 10;
        k += 1;
    }
    acc
}

/// Finish a reading: apply the decimal shift to the mantissa and check
/// the bound, exactly as `spec_finish` says.
fn finish_number(neg: bool, m: u64, f: u64, eneg: bool, e: u64) -> (r: Option<(bool, u64)>)
    requires
        m < MILLI_BOUND,
        f <= 15,
        e <= 9999,
    ensures
        r == spec_finish(neg, m as int, f as int, if eneg { -(e as int) } else { e as int },
        ),
{
    let ghost ei: int = if eneg { -(e as int) } else { e as int };
    let ghost shift: int = 3 - f + ei;
    let shift_nonneg = if eneg { f + e <= 3 } else { f <= 3 + e };
    if shift_nonneg {
        // nonnegative shift: multiply
        let sh: u64 = if eneg { 3 - f - e } else { 3 + e - f };
        assert(sh == shift);
        if m == 0 {
            proof {
                vstd::arithmetic::power::lemma_pow_positive(10, shift as nat);
            }
            Some((neg, 0))
        } else if sh > 15 {
            proof {
                lemma_pow_strictly_increases(10, 15, shift as nat);
                assert(pow(10, 15) == MILLI_BOUND) by {
                    reveal_with_fuel(pow, 16);
                }
                vstd::arithmetic::power::lemma_pow_positive(10, shift as nat);
                assert(m as int * pow(10, shift as nat) >= 1 * pow(10, shift as nat)) by {
                    vstd::arithmetic::mul::lemma_mul_inequality(1, m as int, pow(10, shift as nat));
                }
            }
            None
        } else {
            let p = pow10_u64(sh);
            proof {
                lemma_pow_increases(10, sh as nat, 15);
                assert(pow(10, 15) == MILLI_BOUND) by {
                    reveal_with_fuel(pow, 16);
                }
                assert(m as int * p as int <= MILLI_BOUND as int * MILLI_BOUND as int) by {
                    vstd::arithmetic::mul::lemma_mul_upper_bound(
                        m as int, MILLI_BOUND as int, p as int, MILLI_BOUND as int);
                }
            }
            let v: u128 = m as u128 * p as u128;
            if v < MILLI_BOUND as u128 {
                Some((neg, v as u64))
            } else {
                None
            }
        }
    } else {
        // negative shift: divide
        let d: u64 = if eneg { f + e - 3 } else { f - 3 - e };
        assert(d == -shift && d >= 1);
        if d >= 18 {
            proof {
                lemma_pow_strictly_increases(10, 15, d as nat);
                assert(pow(10, 15) == MILLI_BOUND) by {
                    reveal_with_fuel(pow, 16);
                }
                lemma_basic_div(m as int, pow(10, d as nat));
            }
            Some((neg, 0))
        } else {
            let p = pow10_u64(d);
            proof {
                vstd::arithmetic::power::lemma_pow_positive(10, d as nat);
                vstd::arithmetic::div_mod::lemma_div_is_ordered_by_denominator(m as int, 1, pow(10, d as nat));
            }
            let v = m / p;
            assert(v == milli_of(m as int, f as int, ei));
            Some((neg, v))
        }
    }
}

/// Read a number text into a sign and a magnitude in thousandths.
pub fn parse_number(s: &str) -> (r: Option<(bool, u64)>)
    ensures
        r == spec_parse_number(s@),
{
    let n = s.unicode_len();
    let neg = n > 0 && s.get_char(0) == '-';
    let i0: usize = if neg { 1 } else { 0 };
    let i1 = digits_end_exec(s, i0, n);
    if i1 == i0 {
        return None;
    }
    let has_frac = i1 < n && s.get_char(i1) == '.';
    let f0: usize = if has_frac { i1 + 1 } else { i1 };
    let f1 = digits_end_exec(s, f0, n);
    if has_frac && f1 == f0 {
        return None;
    }
    let ghost digits = s@.subrange(i0 as int, i1 as int) + s@.subrange(f0 as int, f1 as int);
    if (i1 - i0) + (f1 - f0) > 15 {
        return None;
    }
    proof {
        lemma_digits_end(s@, i0 as int);
        lemma_digits_end(s@, f0 as int);
        assert(all_digits(Seq::<char>::empty()));
        assert(Seq::<char>::empty() + s@.subrange(i0 as int, i1 as int)
            =~= s@.subrange(i0 as int, i1 as int));
        assert(s@.subrange(i0 as int, i1 as int) + s@.subrange(f0 as int, f1 as int) =~= digits);
    }
    let mi = accumulate_digits(s, i0, i1, 0, Ghost(Seq::<char>::empty()));
    let m = accumulate_digits(s, f0, f1, mi, Ghost(s@.subrange(i0 as int, i1 as int)));
    let f = (f1 - f0) as u64;
    if f1 == n {
        finish_number(neg, m, f, false, 0)
    } else if s.get_char(f1) == 'e' || s.get_char(f1) == 'E' {
        let esign = f1 + 1 < n && {
            let c = s.get_char(f1 + 1);
            c == '+' || c == '-'
        };
        let eneg = f1 + 1 < n && s.get_char(f1 + 1) == '-';
        let d0: usize = if esign { f1 + 2 } else { f1 + 1 };
        if d0 > n {
            return None;
        }
        let d1 = digits_end_exec(s, d0, n);
        if d1 != n || d1 == d0 || d1 - d0 > 4 {
            return None;
        }
        proof {
            lemma_digits_end(s@, d0 as int);
            assert(all_digits(Seq::<char>::empty()));
            assert(Seq::<char>::empty() + s@.subrange(d0 as int, d1 as int)
                =~= s@.subrange(d0 as int, d1 as int));
            lemma_dec_val_bound(s@.subrange(d0 as int, d1 as int));
            lemma_pow_increases(10, (d1 - d0) as nat, 4);
            assert(pow(10, 4) == 10000) by {
                reveal_with_fuel(pow, 5);
            }
        }
        let e = accumulate_digits(s, d0, d1, 0, Ghost(Seq::<char>::empty()));
        finish_number(neg, m, f, eneg, e)
    } else {
        None
    }
}

} // verus!
