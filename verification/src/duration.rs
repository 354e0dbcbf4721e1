//! Parsing of debounce-duration arguments such as `100ms` or `1.5s`.
//!
//! A duration is a decimal number followed by a unit suffix. The suffixes
//! are tried in the order `ns`, `us`, `ms`, `s`, `m`, `h`, `d`, so `5ns` is
//! five nanoseconds, not five seconds. The units at or above one second
//! accept a fractional part of up to nine decimal digits (nanosecond
//! precision, computed exactly); the sub-second units take a whole number.
//! The result is the duration in nanoseconds.

use vstd::arithmetic::mul::lemma_mul_upper_bound;
use vstd::prelude::*;
use vstd::slice::slice_subrange;

verus! {

/// Why a duration argument was rejected.
#[derive(Clone, Copy, PartialEq, Eq, Structural, Debug)]
pub enum DurationError {
    /// The text does not end in a known unit suffix.
    UnknownUnit,
    /// The number before the suffix is malformed or too large.
    InvalidNumber,
}

/// The units a duration argument can carry.
#[derive(Clone, Copy, PartialEq, Eq, Structural, Debug)]
pub enum DurationUnit {
    /// `ns`
    Nanoseconds,
    /// `us`
    Microseconds,
    /// `ms`
    Milliseconds,
    /// `s`
    Seconds,
    /// `m`
    Minutes,
    /// `h`
    Hours,
    /// `d`
    Days,
}

/// How many nanoseconds one of the unit is.
pub open spec fn unit_nanos(u: DurationUnit) -> nat {
    match u {
        DurationUnit::Nanoseconds => 1,
        DurationUnit::Microseconds => 1000,
        DurationUnit::Milliseconds => 1000000,
        DurationUnit::Seconds => 1000000000,
        DurationUnit::Minutes => 60000000000,
        DurationUnit::Hours => 3600000000000,
        DurationUnit::Days => 86400000000000,
    }
}

/// Whether the unit accepts a fractional number.
pub open spec fn unit_fractional(u: DurationUnit) -> bool {
    match u {
        DurationUnit::Nanoseconds => false,
        DurationUnit::Microseconds => false,
        DurationUnit::Milliseconds => false,
        DurationUnit::Seconds => true,
        DurationUnit::Minutes => true,
        DurationUnit::Hours => true,
        DurationUnit::Days => true,
    }
}

/// `s` ends with `suffix`.
pub open spec fn ends_with(s: Seq<u8>, suffix: Seq<u8>) -> bool {
    s.len() >= suffix.len() && s.subrange(s.len() - suffix.len(), s.len() as int) == suffix
}

/// The unit named by the text's suffix, trying `ns`, `us`, `ms`, `s`, `m`,
/// `h`, `d` in that order.
pub open spec fn unit_of(s: Seq<u8>) -> Option<DurationUnit> {
    if ends_with(s, seq![110u8, 115u8]) {
        Some(DurationUnit::Nanoseconds)
    } else if ends_with(s, seq![117u8, 115u8]) {
        Some(DurationUnit::Microseconds)
    } else if ends_with(s, seq![109u8, 115u8]) {
        Some(DurationUnit::Milliseconds)
    } else if ends_with(s, seq![115u8]) {
        Some(DurationUnit::Seconds)
    } else if ends_with(s, seq![109u8]) {
        Some(DurationUnit::Minutes)
    } else if ends_with(s, seq![104u8]) {
        Some(DurationUnit::Hours)
    } else if ends_with(s, seq![100u8]) {
        Some(DurationUnit::Days)
    } else {
        None
    }
}

/// The length of the unit's suffix.
pub open spec fn suffix_len(u: DurationUnit) -> nat {
    match u {
        DurationUnit::Nanoseconds => 2,
        DurationUnit::Microseconds => 2,
        DurationUnit::Milliseconds => 2,
        DurationUnit::Seconds => 1,
        DurationUnit::Minutes => 1,
        DurationUnit::Hours => 1,
        DurationUnit::Days => 1,
    }
}

/// Whether the byte is a decimal digit.
pub open spec fn is_digit(b: u8) -> bool {
    48 <= b <= 57
}

/// The digit's numeric value; non-digits count as zero.
pub open spec fn digit_val(b: u8) -> nat {
    if is_digit(b) {
        (b - 48) as nat
    } else {
        0
    }
}

/// Every byte is a decimal digit.
pub open spec fn all_digits(s: Seq<u8>) -> bool {
    forall|i: int| 0 <= i < s.len() ==> is_digit(s[i])
}

/// The number a string of decimal digits denotes.
pub open spec fn digits_value(s: Seq<u8>) -> nat
    decreases s.len(),
{
    if s.len() == 0 {
        0
    } else {
        digits_value(s.drop_last()) * 10 + digit_val(s.last())
    }
}

/// Ten to the `k`th power.
pub open spec fn pow10(k: nat) -> nat
    decreases k,
{
    if k == 0 {
        1
    } else {
        10 * pow10((k - 1) as nat)
    }
}

/// A whole number: at least one byte, all digits, small enough to scale.
pub open spec fn whole_number_valid(num: Seq<u8>) -> bool {
    num.len() >= 1 && all_digits(num) && digits_value(num) <= u64::MAX
}

/// Position `i` splits `num` into integer digits, a decimal point, and
/// fraction digits.
pub open spec fn is_decimal_split(num: Seq<u8>, i: int) -> bool {
    &&& 0 <= i < num.len()
    &&& num[i] == 46u8
    &&& all_digits(num.subrange(0, i))
    &&& all_digits(num.subrange(i + 1, num.len() as int))
}

/// The nanoseconds a decimal number of the given unit denotes: either a
/// whole number, or integer and fraction digits around one decimal point.
/// At least one digit must be present; the integer part must fit the scale
/// and the fraction may have at most nine digits, each counted exactly at
/// its decimal weight in nanoseconds, truncated below one nanosecond.
pub open spec fn decimal_nanos(num: Seq<u8>, unit: nat) -> Option<nat> {
    if num.len() >= 1 && all_digits(num) {
        if digits_value(num) <= u64::MAX {
            Some(digits_value(num) * unit)
        } else {
            None
        }
    } else if exists|i: int| is_decimal_split(num, i) {
        let i = choose|i: int| is_decimal_split(num, i);
        let int_part = num.subrange(0, i);
        let frac_part = num.subrange(i + 1, num.len() as int);
        if int_part.len() + frac_part.len() >= 1 && frac_part.len() <= 9 && digits_value(int_part)
            <= u64::MAX {
            Some(
                digits_value(int_part) * unit + (digits_value(frac_part) * unit) / pow10(
                    frac_part.len(),
                ),
            )
        } else {
            None
        }
    } else {
        None
    }
}

/// What a duration argument denotes: its nanoseconds, or why it is
/// rejected.
pub open spec fn duration_spec(s: Seq<u8>) -> Result<nat, DurationError> {
    match unit_of(s) {
        None => Err(DurationError::UnknownUnit),
        Some(u) => {
            let num = s.subrange(0, s.len() - suffix_len(u));
            if unit_fractional(u) {
                match decimal_nanos(num, unit_nanos(u)) {
                    Some(v) => Ok(v),
                    None => Err(DurationError::InvalidNumber),
                }
            } else {
                if whole_number_valid(num) {
                    Ok(digits_value(num) * unit_nanos(u))
                } else {
                    Err(DurationError::InvalidNumber)
                }
            }
        },
    }
}

/// A digit string's value only grows as digits are appended.
proof fn lemma_digits_value_prefix(s: Seq<u8>, i: int)
    requires
        0 <= i <= s.len(),
    ensures
        digits_value(s.subrange(0, i)) <= digits_value(s),
    decreases s.len() - i,
{
    if i < s.len() {
        lemma_digits_value_prefix(s, i + 1);
        let shorter = s.subrange(0, i);
        let longer = s.subrange(0, i + 1);
        assert(longer.drop_last() =~= shorter);
        assert(digits_value(longer) == digits_value(shorter) * 10 + digit_val(longer.last()));
    } else {
        assert(s.subrange(0, i) =~= s);
    }
}

/// The decimal point splits a number in only one way.
proof fn lemma_decimal_split_unique(num: Seq<u8>, i: int, j: int)
    requires
        is_decimal_split(num, i),
        is_decimal_split(num, j),
    ensures
        i == j,
{
    if i < j {
        assert(num.subrange(0, j)[i] == 46u8);
        assert(is_digit(num.subrange(0, j)[i]));
        assert(false);
    }
    if j < i {
        assert(num.subrange(0, i)[j] == 46u8);
        assert(is_digit(num.subrange(0, i)[j]));
        assert(false);
    }
}

/// Parses a whole number of up to `u64::MAX`.
fn parse_digits_u64(num: &[u8]) -> (r: Option<u64>)
    ensures
        r is Some <==> whole_number_valid(num@),
        r is Some ==> r.unwrap() as nat == digits_value(num@),
{
    let n = num.len();
    if n == 0 {
        return None;
    }
    let mut acc: u64 = 0;
    let mut k: usize = 0;
    while k < n
        invariant
            n == num@.len(),
            k <= n,
            all_digits(num@.subrange(0, k as int)),
            acc as nat == digits_value(num@.subrange(0, k as int)),
        decreases n - k,
    {
        let b = num[k];
        if b < 48 || b > 57 {
            assert(!is_digit(num@[k as int]));
            return None;
        }
        let d = b - 48;
        if acc > (u64::MAX - d as u64) / 10 {
            proof {
                let grown = num@.subrange(0, k + 1);
                assert(grown.drop_last() =~= num@.subrange(0, k as int));
                assert(digits_value(grown) == acc as nat * 10 + digit_val(num@[k as int]));
                assert(acc as nat * 10 + d as nat > u64::MAX) by (nonlinear_arith)
                    requires
                        acc > (u64::MAX - d as u64) / 10,
                        acc <= u64::MAX,
                        d <= 9,
                ;
                lemma_digits_value_prefix(num@, k + 1);
            }
            return None;
        }
        proof {
            assert(acc as nat * 10 + d as nat <= u64::MAX) by (nonlinear_arith)
                requires
                    acc <= (u64::MAX - d as u64) / 10,
                    d <= 9,
            ;
            let grown = num@.subrange(0, k + 1);
            assert(grown.drop_last() =~= num@.subrange(0, k as int));
        }
        acc = acc * 10 + d as u64;
        k = k + 1;
    }
    assert(num@.subrange(0, n as int) =~= num@);
    Some(acc)
}

/// Ten to the `k`th power, executably.
fn pow10_u64(k: usize) -> (r: u64)
    requires
        k <= 9,
    ensures
        r as nat == pow10(k as nat),
        r >= 1,
{
    let mut p: u64 = 1;
    let mut j: usize = 0;
    while j < k
        invariant
            j <= k <= 9,
            p as nat == pow10(j as nat),
        decreases k - j,
    {
        proof {
            lemma_pow10_mono(j as nat, 8);
            assert(pow10(8) == 100000000) by {
                reveal_with_fuel(pow10, 9);
            }
        }
        p = p * 10;
        j = j + 1;
    }
    proof {
        lemma_pow10_pos(k as nat);
    }
    p
}

/// Powers of ten are monotone in the exponent.
proof fn lemma_pow10_mono(a: nat, b: nat)
    requires
        a <= b,
    ensures
        pow10(a) <= pow10(b),
    decreases b,
{
    if a < b {
        lemma_pow10_mono(a, (b - 1) as nat);
        assert(pow10(b) == 10 * pow10((b - 1) as nat));
        assert(pow10((b - 1) as nat) >= 1) by {
            lemma_pow10_pos((b - 1) as nat);
        }
    }
}

/// Powers of ten are positive.
proof fn lemma_pow10_pos(k: nat)
    ensures
        pow10(k) >= 1,
    decreases k,
{
    if k > 0 {
        lemma_pow10_pos((k - 1) as nat);
    }
}

/// The largest unit scale, one day in nanoseconds.
pub const MAX_UNIT_NANOS: u64 = 86400000000000;

/// Parses a decimal number — integer digits, an optional point, at most
/// nine fraction digits — into nanoseconds at the given unit scale,
/// following [`decimal_nanos`].
fn parse_decimal_nanos(num: &[u8], unit: u64) -> (r: Option<u128>)
    requires
        1 <= unit <= MAX_UNIT_NANOS,
    ensures
        match r {
            Some(v) => decimal_nanos(num@, unit as nat) == Some(v as nat),
            None => decimal_nanos(num@, unit as nat) is None,
        },
{
    let n = num.len();
    let mut dot: Option<usize> = None;
    let mut k: usize = 0;
    while k < n
        invariant
            n == num@.len(),
            k <= n,
            match dot {
                Some(i) => i < k && num@[i as int] == 46u8 && forall|j: int|
                    0 <= j < i ==> num@[j] != 46u8,
                None => forall|j: int| 0 <= j < k ==> num@[j] != 46u8,
            },
        decreases n - k,
    {
        if num[k] == 46 && dot.is_none() {
            dot = Some(k);
        }
        k = k + 1;
    }
    match dot {
        None => {
            // No decimal point: a whole number or nothing.
            assert(forall|i: int| !is_decimal_split(num@, i));
            match parse_digits_u64(num) {
                Some(v) => {
                    proof {
                        lemma_mul_upper_bound(
                            v as int,
                            u64::MAX as int,
                            unit as int,
                            MAX_UNIT_NANOS as int,
                        );
                    }
                    Some(v as u128 * unit as u128)
                },
                None => {
                    assert(num@.len() >= 1 && all_digits(num@) ==> digits_value(num@)
                        > u64::MAX);
                    None
                },
            }
        },
        Some(i) => {
            // One decimal point found at the first `.`; both sides must be
            // digit strings for the number to be well-formed.
            let int_slice = slice_subrange(num, 0, i);
            let frac_slice = slice_subrange(num, i + 1, n);
            if !all_digits_exec(int_slice) || !all_digits_exec(frac_slice) {
                proof {
                    // No well-formed split exists: a split's integer side
                    // holds no dot, so no split lies right of the first dot,
                    // and none lies left of it, it being the first; a split
                    // at the first dot itself is what just failed.
                    if exists|j: int| is_decimal_split(num@, j) {
                        let j = choose|j: int| is_decimal_split(num@, j);
                        if j > i {
                            assert(num@.subrange(0, j)[i as int] == 46u8);
                            assert(is_digit(num@.subrange(0, j)[i as int]));
                        }
                        assert(j == i);
                        assert(false);
                    }
                    assert(num@[i as int] == 46u8 && !is_digit(num@[i as int]));
                    assert(!all_digits(num@));
                }
                return None;
            }
            assert(is_decimal_split(num@, i as int));
            proof {
                let j = choose|j: int| is_decimal_split(num@, j);
                lemma_decimal_split_unique(num@, i as int, j);
                assert(num@[i as int] == 46u8 && !is_digit(num@[i as int]));
                assert(!all_digits(num@));
            }
            if int_slice.len() == 0 && frac_slice.len() == 0 {
                return None;
            }
            if frac_slice.len() > 9 {
                return None;
            }
            let int_value: u64 = if int_slice.len() == 0 {
                0
            } else {
                match parse_digits_u64(int_slice) {
                    Some(v) => v,
                    None => {
                        return None;
                    },
                }
            };
            let frac_value: u64 = if frac_slice.len() == 0 {
                0
            } else {
                match parse_digits_u64(frac_slice) {
                    Some(v) => v,
                    None => {
                        // Unreachable: at most nine digits always fit.
                        proof {
                            lemma_digits_bounded_by_pow10(frac_slice@);
                            lemma_pow10_mono(frac_slice@.len(), 9);
                            assert(pow10(9) == 1000000000) by {
                                reveal_with_fuel(pow10, 10);
                            }
                        }
                        assert(false);
                        0
                    },
                }
            };
            proof {
                lemma_digits_bounded_by_pow10(frac_slice@);
                lemma_pow10_mono(frac_slice@.len(), 9);
                assert(pow10(9) == 1000000000) by {
                    reveal_with_fuel(pow10, 10);
                }
                lemma_mul_upper_bound(
                    frac_value as int,
                    1000000000,
                    unit as int,
                    MAX_UNIT_NANOS as int,
                );
                lemma_mul_upper_bound(
                    int_value as int,
                    u64::MAX as int,
                    unit as int,
                    MAX_UNIT_NANOS as int,
                );
            }
            let p10 = pow10_u64(frac_slice.len());
            let frac_nanos: u128 = (frac_value as u128 * unit as u128) / (p10 as u128);
            let total: u128 = int_value as u128 * unit as u128 + frac_nanos;
            Some(total)
        },
    }
}

/// Every byte is a decimal digit, executably.
fn all_digits_exec(s: &[u8]) -> (r: bool)
    ensures
        r == all_digits(s@),
{
    let mut k: usize = 0;
    let n = s.len();
    while k < n
        invariant
            n == s@.len(),
            k <= n,
            forall|j: int| 0 <= j < k ==> is_digit(s@[j]),
        decreases n - k,
    {
        if s[k] < 48 || s[k] > 57 {
            assert(!is_digit(s@[k as int]));
            return false;
        }
        k = k + 1;
    }
    true
}

/// A string of `k` digits denotes less than ten to the `k`th.
proof fn lemma_digits_bounded_by_pow10(s: Seq<u8>)
    ensures
        digits_value(s) < pow10(s.len()),
    decreases s.len(),
{
    if s.len() == 0 {
    } else {
        lemma_digits_bounded_by_pow10(s.drop_last());
        assert(digits_value(s.drop_last()) <= pow10((s.len() - 1) as nat) - 1);
        assert(digit_val(s.last()) <= 9);
        assert(digits_value(s.drop_last()) * 10 <= (pow10((s.len() - 1) as nat) - 1) * 10)
            by (nonlinear_arith)
            requires
                digits_value(s.drop_last()) <= pow10((s.len() - 1) as nat) - 1,
        ;
    }
}

/// Parses a duration argument, given as its raw bytes, into nanoseconds:
/// a decimal number followed by a unit suffix, as [`duration_spec`]
/// defines. The sub-second units take whole numbers; the others accept a
/// fraction of up to nine digits, counted exactly.
pub fn duration_from_str(text: &[u8]) -> (r: Result<u128, DurationError>)
    ensures
        match r {
            Ok(v) => duration_spec(text@) == Result::<nat, DurationError>::Ok(v as nat),
            Err(e) => duration_spec(text@) == Result::<nat, DurationError>::Err(e),
        },
{
    let n = text.len();
    let (unit, suffix, fractional, unit_scale): (DurationUnit, usize, bool, u64) = if n >= 2
        && text[n - 1] == 115 && text[n - 2] == 110 {
        assert(text@.subrange(n - 2, n as int) =~= seq![110u8, 115u8]);
        (DurationUnit::Nanoseconds, 2, false, 1)
    } else if n >= 2 && text[n - 1] == 115 && text[n - 2] == 117 {
        (DurationUnit::Microseconds, 2, false, 1000)
    } else if n >= 2 && text[n - 1] == 115 && text[n - 2] == 109 {
        (DurationUnit::Milliseconds, 2, false, 1000000)
    } else if n >= 1 && text[n - 1] == 115 {
        (DurationUnit::Seconds, 1, true, 1000000000)
    } else if n >= 1 && text[n - 1] == 109 {
        (DurationUnit::Minutes, 1, true, 60000000000)
    } else if n >= 1 && text[n - 1] == 104 {
        (DurationUnit::Hours, 1, true, 3600000000000)
    } else if n >= 1 && text[n - 1] == 100 {
        (DurationUnit::Days, 1, true, 86400000000000)
    } else {
        assert(unit_of(text@) is None) by {
            lemma_no_suffix(text@);
        }
        return Err(DurationError::UnknownUnit);
    };
    proof {
        lemma_suffix_detected(text@, unit);
    }
    let num = slice_subrange(text, 0, n - suffix);
    if fractional {
        match parse_decimal_nanos(num, unit_scale) {
            Some(v) => Ok(v),
            None => Err(DurationError::InvalidNumber),
        }
    } else {
        match parse_digits_u64(num) {
            Some(v) => {
                proof {
                    lemma_mul_upper_bound(
                        v as int,
                        u64::MAX as int,
                        unit_scale as int,
                        MAX_UNIT_NANOS as int,
                    );
                }
                Ok(v as u128 * unit_scale as u128)
            },
            None => Err(DurationError::InvalidNumber),
        }
    }
}

/// When none of the suffix byte patterns is present, no unit is named.
proof fn lemma_no_suffix(s: Seq<u8>)
    requires
        !(s.len() >= 2 && s[s.len() - 1] == 115 && s[s.len() - 2] == 110),
        !(s.len() >= 2 && s[s.len() - 1] == 115 && s[s.len() - 2] == 117),
        !(s.len() >= 2 && s[s.len() - 1] == 115 && s[s.len() - 2] == 109),
        !(s.len() >= 1 && s[s.len() - 1] == 115),
        !(s.len() >= 1 && s[s.len() - 1] == 109),
        !(s.len() >= 1 && s[s.len() - 1] == 104),
        !(s.len() >= 1 && s[s.len() - 1] == 100),
    ensures
        unit_of(s) is None,
{
    assert(!ends_with(s, seq![110u8, 115u8])) by {
        if ends_with(s, seq![110u8, 115u8]) {
            assert(s.subrange(s.len() - 2, s.len() as int)[1] == 115u8);
            assert(s.subrange(s.len() - 2, s.len() as int)[0] == 110u8);
        }
    }
    assert(!ends_with(s, seq![117u8, 115u8])) by {
        if ends_with(s, seq![117u8, 115u8]) {
            assert(s.subrange(s.len() - 2, s.len() as int)[1] == 115u8);
            assert(s.subrange(s.len() - 2, s.len() as int)[0] == 117u8);
        }
    }
    assert(!ends_with(s, seq![109u8, 115u8])) by {
        if ends_with(s, seq![109u8, 115u8]) {
            assert(s.subrange(s.len() - 2, s.len() as int)[1] == 115u8);
            assert(s.subrange(s.len() - 2, s.len() as int)[0] == 109u8);
        }
    }
    assert(!ends_with(s, seq![115u8])) by {
        if ends_with(s, seq![115u8]) {
            assert(s.subrange(s.len() - 1, s.len() as int)[0] == 115u8);
        }
    }
    assert(!ends_with(s, seq![109u8])) by {
        if ends_with(s, seq![109u8]) {
            assert(s.subrange(s.len() - 1, s.len() as int)[0] == 109u8);
        }
    }
    assert(!ends_with(s, seq![104u8])) by {
        if ends_with(s, seq![104u8]) {
            assert(s.subrange(s.len() - 1, s.len() as int)[0] == 104u8);
        }
    }
    assert(!ends_with(s, seq![100u8])) by {
        if ends_with(s, seq![100u8]) {
            assert(s.subrange(s.len() - 1, s.len() as int)[0] == 100u8);
        }
    }
}

/// The branch taken by the suffix scan names the unit that [`unit_of`]
/// names.
proof fn lemma_suffix_detected(s: Seq<u8>, u: DurationUnit)
    requires
        match u {
            DurationUnit::Nanoseconds => s.len() >= 2 && s[s.len() - 1] == 115 && s[s.len() - 2]
                == 110,
            DurationUnit::Microseconds => s.len() >= 2 && s[s.len() - 1] == 115 && s[s.len() - 2]
                == 117,
            DurationUnit::Milliseconds => s.len() >= 2 && s[s.len() - 1] == 115 && s[s.len() - 2]
                == 109,
            DurationUnit::Seconds => s.len() >= 1 && s[s.len() - 1] == 115 && !(s.len() >= 2 && (
            s[s.len() - 2] == 110 || s[s.len() - 2] == 117 || s[s.len() - 2] == 109)),
            DurationUnit::Minutes => s.len() >= 1 && s[s.len() - 1] == 109 && s[s.len() - 1]
                != 115,
            DurationUnit::Hours => s.len() >= 1 && s[s.len() - 1] == 104,
            DurationUnit::Days => s.len() >= 1 && s[s.len() - 1] == 100,
        },
    ensures
        unit_of(s) == Some(u),
{
    let two = s.len() - 2;
    let one = s.len() - 1;
    match u {
        DurationUnit::Nanoseconds => {
            assert(s.subrange(two, s.len() as int) =~= seq![110u8, 115u8]);
        },
        DurationUnit::Microseconds => {
            assert(s.subrange(two, s.len() as int) =~= seq![117u8, 115u8]);
            assert(!ends_with(s, seq![110u8, 115u8])) by {
                if ends_with(s, seq![110u8, 115u8]) {
                    assert(s.subrange(two, s.len() as int)[0] == 110u8);
                }
            }
        },
        DurationUnit::Milliseconds => {
            assert(s.subrange(two, s.len() as int) =~= seq![109u8, 115u8]);
            assert(!ends_with(s, seq![110u8, 115u8])) by {
                if ends_with(s, seq![110u8, 115u8]) {
                    assert(s.subrange(two, s.len() as int)[0] == 110u8);
                }
            }
            assert(!ends_with(s, seq![117u8, 115u8])) by {
                if ends_with(s, seq![117u8, 115u8]) {
                    assert(s.subrange(two, s.len() as int)[0] == 117u8);
                }
            }
        },
        DurationUnit::Seconds => {
            assert(s.subrange(one, s.len() as int) =~= seq![115u8]);
            assert(!ends_with(s, seq![110u8, 115u8])) by {
                if ends_with(s, seq![110u8, 115u8]) {
                    assert(s.subrange(two, s.len() as int)[0] == 110u8);
                }
            }
            assert(!ends_with(s, seq![117u8, 115u8])) by {
                if ends_with(s, seq![117u8, 115u8]) {
                    assert(s.subrange(two, s.len() as int)[0] == 117u8);
                }
            }
            assert(!ends_with(s, seq![109u8, 115u8])) by {
                if ends_with(s, seq![109u8, 115u8]) {
                    assert(s.subrange(two, s.len() as int)[0] == 109u8);
                }
            }
        },
        DurationUnit::Minutes => {
            assert(s.subrange(one, s.len() as int) =~= seq![109u8]);
            lemma_not_s_suffixes(s);
        },
        DurationUnit::Hours => {
            assert(s.subrange(one, s.len() as int) =~= seq![104u8]);
            lemma_not_s_suffixes(s);
            assert(!ends_with(s, seq![109u8])) by {
                if ends_with(s, seq![109u8]) {
                    assert(s.subrange(one, s.len() as int)[0] == 109u8);
                }
            }
        },
        DurationUnit::Days => {
            assert(s.subrange(one, s.len() as int) =~= seq![100u8]);
            lemma_not_s_suffixes(s);
            assert(!ends_with(s, seq![109u8])) by {
                if ends_with(s, seq![109u8]) {
                    assert(s.subrange(one, s.len() as int)[0] == 109u8);
                }
            }
            assert(!ends_with(s, seq![104u8])) by {
                if ends_with(s, seq![104u8]) {
                    assert(s.subrange(one, s.len() as int)[0] == 104u8);
                }
            }
        },
    }
}

/// A text whose last byte is not `s` ends with none of the `s` suffixes.
proof fn lemma_not_s_suffixes(s: Seq<u8>)
    requires
        s.len() >= 1,
        s[s.len() - 1] != 115,
    ensures
        !ends_with(s, seq![110u8, 115u8]),
        !ends_with(s, seq![117u8, 115u8]),
        !ends_with(s, seq![109u8, 115u8]),
        !ends_with(s, seq![115u8]),
{
    assert(!ends_with(s, seq![110u8, 115u8])) by {
        if ends_with(s, seq![110u8, 115u8]) {
            assert(s.subrange(s.len() - 2, s.len() as int)[1] == 115u8);
        }
    }
    assert(!ends_with(s, seq![117u8, 115u8])) by {
        if ends_with(s, seq![117u8, 115u8]) {
            assert(s.subrange(s.len() - 2, s.len() as int)[1] == 115u8);
        }
    }
    assert(!ends_with(s, seq![109u8, 115u8])) by {
        if ends_with(s, seq![109u8, 115u8]) {
            assert(s.subrange(s.len() - 2, s.len() as int)[1] == 115u8);
        }
    }
    assert(!ends_with(s, seq![115u8])) by {
        if ends_with(s, seq![115u8]) {
            assert(s.subrange(s.len() - 1, s.len() as int)[0] == 115u8);
        }
    }
}

} // verus!
