//! Character-level logic shared by the collectors, the configuration
//! parser and the search layer: the decimal-number grammar with
//! fixed-point evaluation, plain integer and boolean parsing, ASCII case
//! folding and substring occurrence.

use vstd::prelude::*;

verus! {

/// A decimal digit `'0'..='9'`.
pub open spec fn is_digit(c: char) -> bool {
    48 <= c as u32 && c as u32 <= 57
}

/// Numeric value of a digit character.
pub open spec fn digit_val(c: char) -> int {
    c as u32 - 48
}

/// A non-empty sequence of decimal digits.
pub open spec fn is_digits(s: Seq<char>) -> bool {
    s.len() > 0 && forall|i: int| 0 <= i < s.len() ==> is_digit(#[trigger] s[i])
}

/// Value of a digit string read in base ten.
pub open spec fn digits_value(s: Seq<char>) -> int
    decreases s.len(),
{
    if s.len() == 0 {
        0
    } else {
        digits_value(s.drop_last()) * 10 + digit_val(s.last())
    }
}

/// Ten to the `n`th power.
pub open spec fn pow10(n: nat) -> int
    decreases n,
{
    if n == 0 {
        1
    } else {
        10 * pow10((n - 1) as nat)
    }
}

pub proof fn lemma_pow10_pos(n: nat)
    ensures
        pow10(n) >= 1,
    decreases n,
{
    if n > 0 {
        lemma_pow10_pos((n - 1) as nat);
    }
}

pub proof fn lemma_pow10_add(a: nat, b: nat)
    ensures
        pow10(a) * pow10(b) == pow10(a + b),
    decreases a,
{
    if a == 0 {
    } else {
        lemma_pow10_add((a - 1) as nat, b);
        assert(pow10(a) * pow10(b) == 10 * (pow10((a - 1) as nat) * pow10(b)))
            by (nonlinear_arith)
            requires pow10(a) == 10 * pow10((a - 1) as nat),
        ;
    }
}

pub proof fn lemma_pow10_monotone(a: nat, b: nat)
    requires
        a <= b,
    ensures
        pow10(a) <= pow10(b),
    decreases b,
{
    if a < b {
        lemma_pow10_monotone(a, (b - 1) as nat);
        lemma_pow10_pos((b - 1) as nat);
    }
}

pub proof fn lemma_digits_value_nonneg(s: Seq<char>)
    requires
        forall|i: int| 0 <= i < s.len() ==> is_digit(#[trigger] s[i]),
    ensures
        digits_value(s) >= 0,
    decreases s.len(),
{
    if s.len() > 0 {
        lemma_digits_value_nonneg(s.drop_last());
    }
}

pub proof fn lemma_digits_value_bound(s: Seq<char>)
    requires
        forall|i: int| 0 <= i < s.len() ==> is_digit(#[trigger] s[i]),
    ensures
        0 <= digits_value(s) < pow10(s.len()),
    decreases s.len(),
{
    if s.len() == 0 {
    } else {
        lemma_digits_value_bound(s.drop_last());
        assert(digits_value(s.drop_last()) <= pow10((s.len() - 1) as nat) - 1);
        assert(digits_value(s.drop_last()) * 10 <= (pow10((s.len() - 1) as nat) - 1) * 10)
            by (nonlinear_arith)
            requires digits_value(s.drop_last()) <= pow10((s.len() - 1) as nat) - 1,
        ;
    }
}

/// Reading one more digit multiplies the prefix value by ten.
pub proof fn lemma_digits_value_step(s: Seq<char>, i: int)
    requires
        0 <= i < s.len(),
    ensures
        digits_value(s.subrange(0, i + 1)) == digits_value(s.subrange(0, i)) * 10 + digit_val(
            s[i],
        ),
{
    let t = s.subrange(0, i + 1);
    assert(t.drop_last() =~= s.subrange(0, i));
    assert(t.last() == s[i]);
}

/// The value of a digit string never shrinks as the string grows.
pub proof fn lemma_digits_value_prefix_le(s: Seq<char>, i: int)
    requires
        0 <= i <= s.len(),
        forall|j: int| 0 <= j < s.len() ==> is_digit(#[trigger] s[j]),
    ensures
        digits_value(s.subrange(0, i)) <= digits_value(s),
    decreases s.len() - i,
{
    if i == s.len() {
        assert(s.subrange(0, i) =~= s);
    } else {
        lemma_digits_value_prefix_le(s, i + 1);
        lemma_digits_value_step(s, i);
        lemma_digits_value_nonneg(s.subrange(0, i));
        assert(digits_value(s.subrange(0, i)) * 10 >= digits_value(s.subrange(0, i)))
            by (nonlinear_arith)
            requires digits_value(s.subrange(0, i)) >= 0,
        ;
    }
}

/// `i` splits `s` into the integer and fractional parts of a decimal
/// numeral: either `s` is all digits and `i` is its length, or `s[i]` is
/// the decimal point with digits on both sides.
pub open spec fn splits_decimal(s: Seq<char>, i: int) -> bool {
    if i == s.len() {
        is_digits(s)
    } else {
        0 <= i < s.len() && s[i] == '.' && is_digits(s.subrange(0, i)) && is_digits(
            s.subrange(i + 1, s.len() as int),
        )
    }
}

/// `s` matches the decimal-numeral grammar `digits ['.' digits]`.
pub open spec fn decimal_shape(s: Seq<char>) -> bool {
    exists|i: int| 0 <= i <= s.len() && #[trigger] splits_decimal(s, i)
}

/// Value of the fractional digit string `f`, scaled to `k` fixed-point
/// digits: digits beyond the `k`th are truncated, missing ones count as
/// zero.
pub open spec fn frac_scaled(f: Seq<char>, k: nat) -> int {
    if f.len() >= k {
        digits_value(f.subrange(0, k as int))
    } else {
        digits_value(f) * pow10((k - f.len()) as nat)
    }
}

/// Fixed-point value of the decimal numeral split at `i`, scaled by
/// `pow10(k)`.
pub open spec fn decimal_value_at(s: Seq<char>, i: int, k: nat) -> int {
    if i == s.len() {
        digits_value(s) * pow10(k)
    } else {
        digits_value(s.subrange(0, i)) * pow10(k) + frac_scaled(
            s.subrange(i + 1, s.len() as int),
            k,
        )
    }
}

/// Fixed-point value of a decimal numeral, scaled by `pow10(k)`.
/// Meaningful only when `decimal_shape(s)` holds.
pub open spec fn decimal_value(s: Seq<char>, k: nat) -> int {
    decimal_value_at(s, choose|i: int| 0 <= i <= s.len() && splits_decimal(s, i), k)
}

/// A decimal numeral splits at one position only.
pub proof fn lemma_split_unique(s: Seq<char>, i: int, j: int)
    requires
        0 <= i <= s.len(),
        0 <= j <= s.len(),
        splits_decimal(s, i),
        splits_decimal(s, j),
    ensures
        i == j,
{
    if i < j {
        if j == s.len() {
            assert(is_digit(s[i]));
        } else {
            assert(is_digit(s.subrange(0, j)[i]));
        }
        assert(false);
    } else if j < i {
        if i == s.len() {
            assert(is_digit(s[j]));
        } else {
            assert(is_digit(s.subrange(0, i)[j]));
        }
        assert(false);
    }
}

/// Pins `decimal_value` down once a split position is known.
pub proof fn lemma_decimal_value_at(s: Seq<char>, i: int, k: nat)
    requires
        0 <= i <= s.len(),
        splits_decimal(s, i),
    ensures
        decimal_shape(s),
        decimal_value(s, k) == decimal_value_at(s, i, k),
{
    assert(decimal_shape(s));
    let j = choose|j: int| 0 <= j <= s.len() && splits_decimal(s, j);
    lemma_split_unique(s, i, j);
}

/// The characters of `s`, in order, as a vector.
pub fn str_chars(s: &str) -> (r: Vec<char>)
    ensures
        r@ == s@,
{
    let n = s.unicode_len();
    let mut r: Vec<char> = Vec::new();
    let mut i: usize = 0;
    while i < n
        invariant
            i <= n,
            n == s@.len(),
            r@ == s@.subrange(0, i as int),
        decreases n - i,
    {
        r.push(s.get_char(i));
        assert(s@.subrange(0, i + 1) =~= s@.subrange(0, i as int).push(s@[i as int]));
        i += 1;
    }
    assert(s@.subrange(0, n as int) =~= s@);
    r
}

/// Numeric value of `c` if it is a decimal digit.
fn digit_of(c: char) -> (r: Option<u64>)
    ensures
        r is Some <==> is_digit(c),
        r is Some ==> r->0 == digit_val(c),
{
    let u = c as u32;
    if 48 <= u && u <= 57 {
        Some((u - 48) as u64)
    } else {
        None
    }
}

/// Ten to the `k`th power as a machine integer.
fn pow10_u64(k: u32) -> (r: u64)
    requires
        k <= 19,
    ensures
        r == pow10(k as nat),
{
    proof {
        reveal_with_fuel(pow10, 20);
        assert(pow10(19) == 10_000_000_000_000_000_000);
    }
    let mut r: u64 = 1;
    let mut i: u32 = 0;
    while i < k
        invariant
            i <= k,
            k <= 19,
            r == pow10(i as nat),
            pow10(19) == 10_000_000_000_000_000_000,
        decreases k - i,
    {
        proof {
            lemma_pow10_monotone((i + 1) as nat, 19);
            lemma_pow10_pos(i as nat);
        }
        r = r * 10;
        i += 1;
    }
    r
}

/// Parse a decimal numeral (`digits ['.' digits]`) into a fixed-point
/// integer with `frac_digits` fractional digits, truncating any further
/// fractional digits. Returns `None` exactly when the text does not match
/// the grammar or the value exceeds `max`.
#[verifier::rlimit(100)]
pub fn parse_scaled(s: &str, frac_digits: u32, max: u64) -> (r: Option<u64>)
    requires
        frac_digits <= 19,
    ensures
        match r {
            Some(v) => decimal_shape(s@) && v == decimal_value(s@, frac_digits as nat) && v
                <= max,
            None => !(decimal_shape(s@) && 0 <= decimal_value(s@, frac_digits as nat) <= max),
        },
{
    let ghost k = frac_digits as nat;
    let cs = str_chars(s);
    let n = cs.len();
    let mut i: usize = 0;
    let mut acc: u64 = 0;
    // Integer part: a non-empty run of digits.
    while i < n && cs[i] != '.'
        invariant
            0 <= i <= n,
            n == cs.len(),
            cs@ == s@,
            frac_digits <= 19,
            forall|j: int| 0 <= j < i ==> is_digit(#[trigger] cs@[j]),
            acc == digits_value(cs@.subrange(0, i as int)),
        decreases n - i,
    {
        let d = match digit_of(cs[i]) {
            Some(d) => d,
            None => {
                // Neither a digit nor the decimal point: no split position
                // can make the text a decimal numeral.
                proof {
                    assert forall|p: int| 0 <= p <= s@.len() implies !splits_decimal(s@, p) by {
                        if splits_decimal(s@, p) {
                            if p == s@.len() {
                                assert(is_digit(s@[i as int]));
                            } else if p <= i {
                                assert(is_digit(s@.subrange(
                                    p + 1,
                                    s@.len() as int,
                                )[i - p - 1]));
                            } else {
                                assert(is_digit(s@.subrange(0, p)[i as int]));
                            }
                        }
                    }
                }
                return None;
            },
        };
        proof {
            lemma_digits_value_step(cs@, i as int);
        }
        acc = match acc.checked_mul(10) {
            Some(a) => match a.checked_add(d) {
                Some(a) => a,
                None => {
                    proof {
                        overflow_means_too_big(s@, i as int, frac_digits as nat, max);
                    }
                    return None;
                },
            },
            None => {
                proof {
                    lemma_digits_value_nonneg(cs@.subrange(0, i as int));
                    assert(acc * 10 + digit_val(cs@[i as int]) > u64::MAX);
                    overflow_means_too_big(s@, i as int, frac_digits as nat, max);
                }
                return None;
            },
        };
        i += 1;
    }
    if i == 0 {
        // Empty integer part: the grammar requires a leading digit.
        proof {
            assert forall|p: int| 0 <= p <= s@.len() implies !splits_decimal(s@, p) by {
                if splits_decimal(s@, p) {
                    // Either split shape would need a digit at position 0,
                    // but the scan stopped there on a non-digit.
                    if p == s@.len() {
                        assert(is_digit(s@[0]));
                    } else if p == 0 {
                        assert(s@.subrange(0, 0).len() == 0);
                    } else {
                        assert(is_digit(s@.subrange(0, p)[0]));
                    }
                }
            }
        }
        return None;
    }
    let p10 = pow10_u64(frac_digits);
    proof {
        lemma_pow10_pos(k);
    }
    if i == n {
        // No decimal point: the whole text is the integer part.
        proof {
            assert(cs@.subrange(0, n as int) =~= s@);
            assert(splits_decimal(s@, n as int));
            lemma_decimal_value_at(s@, n as int, k);
        }
        match acc.checked_mul(p10) {
            Some(v) => {
                if v <= max {
                    Some(v)
                } else {
                    None
                }
            },
            None => {
                proof {
                    assert(decimal_value(s@, k) == acc * pow10(k));
                }
                None
            },
        }
    } else {
        // cs[i] is the decimal point; a non-empty digit run must follow.
        let dot = i;
        let ghost int_part = s@.subrange(0, dot as int);
        let ghost frac_part = s@.subrange(dot + 1, s@.len() as int);
        i += 1;
        let mut fcount: u32 = 0;
        let mut facc: u64 = 0;
        proof {
            lemma_digits_value_bound(frac_part.subrange(0, 0));
        }
        while i < n
            invariant
                dot < i <= n,
                n == cs.len(),
                cs@ == s@,
                cs@[dot as int] == '.',
                frac_digits <= 19,
                int_part == s@.subrange(0, dot as int),
                frac_part == s@.subrange(dot + 1, s@.len() as int),
                forall|j: int| 0 <= j < dot ==> is_digit(#[trigger] cs@[j]),
                forall|j: int| dot < j < i ==> is_digit(#[trigger] cs@[j]),
                fcount == if i - dot - 1 <= frac_digits {
                    i - dot - 1
                } else {
                    frac_digits as int
                },
                facc == digits_value(frac_part.subrange(0, fcount as int)),
                facc < pow10(fcount as nat),
            decreases n - i,
        {
            let d = match digit_of(cs[i]) {
                Some(d) => d,
                None => {
                    // A non-digit inside the fractional part: no split fits.
                    proof {
                        assert forall|p: int| 0 <= p <= s@.len() implies !splits_decimal(
                            s@,
                            p,
                        ) by {
                            if splits_decimal(s@, p) {
                                if p == s@.len() {
                                    assert(is_digit(s@[dot as int]));
                                } else if p < dot {
                                    assert(is_digit(s@.subrange(
                                        p + 1,
                                        s@.len() as int,
                                    )[dot - p - 1]));
                                } else if p == dot {
                                    assert(is_digit(s@.subrange(
                                        p + 1,
                                        s@.len() as int,
                                    )[i - p - 1]));
                                } else {
                                    assert(is_digit(s@.subrange(0, p)[dot as int]));
                                }
                            }
                        }
                    }
                    return None;
                },
            };
            if fcount < frac_digits {
                proof {
                    lemma_digits_value_step(frac_part, fcount as int);
                    lemma_pow10_monotone((fcount + 1) as nat, 19);
                    reveal_with_fuel(pow10, 20);
                    assert(pow10(19) == 10_000_000_000_000_000_000);
                    assert(facc * 10 + 9 < pow10(fcount as nat) * 10) by (nonlinear_arith)
                        requires facc < pow10(fcount as nat),
                    ;
                    assert(frac_part[fcount as int] == cs@[i as int]);
                }
                facc = facc * 10 + d;
                fcount += 1;
            } else {
                proof {
                    assert(frac_part.subrange(0, fcount as int) =~= frac_part.subrange(
                        0,
                        fcount as int,
                    ));
                }
            }
            i += 1;
        }
        if dot + 1 == n {
            // Nothing after the decimal point: the grammar requires digits.
            proof {
                assert forall|p: int| 0 <= p <= s@.len() implies !splits_decimal(s@, p) by {
                    if splits_decimal(s@, p) {
                        if p == s@.len() {
                            assert(is_digit(s@[dot as int]));
                        } else if p < dot {
                            assert(is_digit(s@.subrange(p + 1, s@.len() as int)[dot - p - 1]));
                        } else if p == dot {
                            assert(is_digits(s@.subrange(p + 1, s@.len() as int)));
                            assert(s@.subrange(p + 1, s@.len() as int).len() == 0);
                        } else {
                            assert(is_digit(s@.subrange(0, p)[dot as int]));
                        }
                    }
                }
            }
            return None;
        }
        // The whole text now matches the grammar, split at `dot`.
        proof {
            assert(int_part =~= cs@.subrange(0, dot as int));
            assert(splits_decimal(s@, dot as int));
            lemma_decimal_value_at(s@, dot as int, k);
            assert(decimal_value(s@, k) == digits_value(int_part) * pow10(k) + frac_scaled(
                frac_part,
                k,
            ));
        }
        // Finish scaling the fractional part to exactly `frac_digits`.
        let fscaled: u64 = if fcount < frac_digits {
            proof {
                assert(frac_part.subrange(0, fcount as int) =~= frac_part);
                lemma_pow10_add(fcount as nat, (frac_digits - fcount) as nat);
                lemma_pow10_monotone(k, 19);
                reveal_with_fuel(pow10, 20);
                assert(pow10(19) == 10_000_000_000_000_000_000);
                lemma_digits_value_nonneg(frac_part);
                assert(facc * pow10((frac_digits - fcount) as nat) < pow10(k)) by (
                nonlinear_arith)
                    requires
                        facc < pow10(fcount as nat),
                        facc >= 0,
                        pow10(fcount as nat) * pow10((frac_digits - fcount) as nat) == pow10(
                            k,
                        ),
                        pow10((frac_digits - fcount) as nat) >= 1,
                ;
            }
            facc * pow10_u64(frac_digits - fcount)
        } else {
            proof {
                assert(frac_part.len() >= k);
                assert(frac_scaled(frac_part, k) == digits_value(frac_part.subrange(
                    0,
                    k as int,
                )));
            }
            facc
        };
        proof {
            assert(fscaled == frac_scaled(frac_part, k));
            assert(fscaled < pow10(k));
            lemma_digits_value_nonneg(int_part);
        }
        match acc.checked_mul(p10) {
            Some(v) => match v.checked_add(fscaled) {
                Some(v) => {
                    if v <= max {
                        Some(v)
                    } else {
                        None
                    }
                },
                None => None,
            },
            None => None,
        }
    }
}

/// Helper for `parse_scaled`: once some digit prefix of the integer part
/// already exceeds `u64::MAX`, the value of the whole numeral (whatever
/// its shape) exceeds `max`.
proof fn overflow_means_too_big(s: Seq<char>, i: int, k: nat, max: u64)
    requires
        0 <= i < s.len(),
        forall|j: int| 0 <= j < i ==> is_digit(#[trigger] s[j]),
        is_digit(s[i]),
        digits_value(s.subrange(0, i)) * 10 + digit_val(s[i]) > u64::MAX,
    ensures
        !(decimal_shape(s) && 0 <= decimal_value(s, k) <= max),
{
    if decimal_shape(s) && 0 <= decimal_value(s, k) <= max {
        let p = choose|p: int| 0 <= p <= s.len() && splits_decimal(s, p);
        lemma_digits_value_step(s, i);
        lemma_pow10_pos(k);
        if p == s.len() {
            lemma_digits_value_prefix_le(s, i + 1);
            assert(digits_value(s) > u64::MAX);
            assert(digits_value(s) * pow10(k) >= digits_value(s)) by (nonlinear_arith)
                requires
                    digits_value(s) >= 0,
                    pow10(k) >= 1,
            ;
            assert(decimal_value_at(s, p, k) > u64::MAX);
        } else {
            // The decimal point must lie at or after position i + 1.
            assert(p > i) by {
                if p <= i {
                    if p < i {
                        assert(is_digit(s[p]));
                    } else {
                        assert(is_digit(s[i]));
                    }
                    assert(s[p] == '.');
                }
            }
            let int_part = s.subrange(0, p);
            assert(forall|j: int| 0 <= j < int_part.len() ==> is_digit(#[trigger] int_part[j]));
            lemma_digits_value_prefix_le(int_part, i + 1);
            assert(int_part.subrange(0, i + 1) =~= s.subrange(0, i + 1));
            assert(int_part.subrange(0, i) =~= s.subrange(0, i));
            assert(digits_value(int_part) > u64::MAX);
            let frac_part = s.subrange(p + 1, s.len() as int);
            frac_scaled_nonneg(frac_part, k);
            assert(digits_value(int_part) * pow10(k) >= digits_value(int_part)) by (
            nonlinear_arith)
                requires
                    digits_value(int_part) >= 0,
                    pow10(k) >= 1,
            ;
            assert(decimal_value_at(s, p, k) > u64::MAX);
        }
        lemma_decimal_value_at(s, p, k);
        assert(false);
    }
}

/// Parse a plain unsigned integer: a non-empty run of digits, nothing
/// else. Returns `None` exactly when the text does not match or the value
/// does not fit in a `u64`.
pub fn parse_u64(s: &str) -> (r: Option<u64>)
    ensures
        match r {
            Some(v) => is_digits(s@) && v == digits_value(s@),
            None => !(is_digits(s@) && digits_value(s@) <= u64::MAX),
        },
{
    let cs = str_chars(s);
    let n = cs.len();
    if n == 0 {
        return None;
    }
    let mut i: usize = 0;
    let mut acc: u64 = 0;
    while i < n
        invariant
            0 <= i <= n,
            n == cs.len(),
            n > 0,
            cs@ == s@,
            forall|j: int| 0 <= j < i ==> is_digit(#[trigger] cs@[j]),
            acc == digits_value(cs@.subrange(0, i as int)),
        decreases n - i,
    {
        let d = match digit_of(cs[i]) {
            Some(d) => d,
            None => {
                return None;
            },
        };
        proof {
            lemma_digits_value_step(cs@, i as int);
        }
        acc = match acc.checked_mul(10) {
            Some(a) => match a.checked_add(d) {
                Some(a) => a,
                None => {
                    proof {
                        u64_digit_overflow(s@, i as int);
                    }
                    return None;
                },
            },
            None => {
                proof {
                    lemma_digits_value_nonneg(cs@.subrange(0, i as int));
                    assert(acc * 10 + digit_val(cs@[i as int]) > u64::MAX);
                    u64_digit_overflow(s@, i as int);
                }
                return None;
            },
        };
        i += 1;
    }
    proof {
        assert(cs@.subrange(0, n as int) =~= s@);
    }
    Some(acc)
}

/// Helper for `parse_u64`: a digit prefix that already exceeds `u64::MAX`
/// makes the whole digit string exceed it.
proof fn u64_digit_overflow(s: Seq<char>, i: int)
    requires
        0 <= i < s.len(),
        forall|j: int| 0 <= j < i ==> is_digit(#[trigger] s[j]),
        is_digit(s[i]),
        digits_value(s.subrange(0, i)) * 10 + digit_val(s[i]) > u64::MAX,
    ensures
        !(is_digits(s) && digits_value(s) <= u64::MAX),
{
    if is_digits(s) && digits_value(s) <= u64::MAX {
        lemma_digits_value_step(s, i);
        lemma_digits_value_prefix_le(s, i + 1);
        assert(false);
    }
}

/// Character-wise string equality.
pub fn str_eq(a: &str, b: &str) -> (r: bool)
    ensures
        r == (a@ == b@),
{
    let na = a.unicode_len();
    let nb = b.unicode_len();
    if na != nb {
        return false;
    }
    let mut i: usize = 0;
    while i < na
        invariant
            0 <= i <= na,
            na == a@.len(),
            na == b@.len(),
            forall|j: int| 0 <= j < i ==> a@[j] == b@[j],
        decreases na - i,
    {
        if a.get_char(i) != b.get_char(i) {
            return false;
        }
        i += 1;
    }
    proof {
        assert(a@ =~= b@);
    }
    true
}

/// Parse a boolean: exactly `"true"` or `"false"`.
pub fn parse_bool(s: &str) -> (r: Option<bool>)
    ensures
        r == Some(true) <==> s@ == "true"@,
        r == Some(false) <==> s@ == "false"@,
        r is None <==> (s@ != "true"@ && s@ != "false"@),
{
    proof {
        reveal_strlit("true");
        reveal_strlit("false");
        assert("true"@.len() == 4);
        assert("false"@.len() == 5);
        assert("true"@ != "false"@);
    }
    let is_t = str_eq(s, "true");
    let is_f = str_eq(s, "false");
    if is_t {
        Some(true)
    } else if is_f {
        Some(false)
    } else {
        None
    }
}

/// ASCII case folding of one character: upper-case letters map to their
/// lower-case forms, everything else is unchanged.
pub open spec fn fold_char(c: char) -> char {
    if 65 <= c as u32 && c as u32 <= 90 {
        ((c as u32 + 32) as u8) as char
    } else {
        c
    }
}

/// ASCII case folding of a character sequence.
pub open spec fn fold_seq(s: Seq<char>) -> Seq<char> {
    s.map_values(|c: char| fold_char(c))
}

/// ASCII-lower-case the characters of a string.
pub fn fold_chars(s: &str) -> (r: Vec<char>)
    ensures
        r@ == fold_seq(s@),
{
    let cs = str_chars(s);
    let n = cs.len();
    let mut r: Vec<char> = Vec::new();
    let mut i: usize = 0;
    while i < n
        invariant
            0 <= i <= n,
            n == cs.len(),
            cs@ == s@,
            r@ == fold_seq(s@.subrange(0, i as int)),
        decreases n - i,
    {
        let c = cs[i];
        let u = c as u32;
        let f: char = if 65 <= u && u <= 90 {
            ((u + 32) as u8) as char
        } else {
            c
        };
        assert(f == fold_char(s@[i as int]));
        r.push(f);
        proof {
            assert(fold_seq(s@.subrange(0, i + 1)) =~= fold_seq(s@.subrange(0, i as int)).push(
                fold_char(s@[i as int]),
            ));
        }
        i += 1;
    }
    proof {
        assert(s@.subrange(0, n as int) =~= s@);
    }
    r
}

/// Relies on std's `String::push`: appends one character to the string.
#[verifier::external_body]
fn push_char(s: &mut String, c: char)
    ensures
        final(s)@ == old(s)@.push(c),
{
    s.push(c);
}

/// ASCII-lower-case a string into a new string.
pub fn fold_str(s: &str) -> (r: String)
    ensures
        r@ == fold_seq(s@),
{
    let cs = fold_chars(s);
    let n = cs.len();
    let mut r = String::new();
    let mut i: usize = 0;
    while i < n
        invariant
            0 <= i <= n,
            n == cs.len(),
            cs@ == fold_seq(s@),
            r@ == cs@.subrange(0, i as int),
        decreases n - i,
    {
        push_char(&mut r, cs[i]);
        assert(cs@.subrange(0, i + 1) =~= cs@.subrange(0, i as int).push(cs@[i as int]));
        i += 1;
    }
    proof {
        assert(cs@.subrange(0, n as int) =~= cs@);
    }
    r
}

/// `needle` occurs in `hay` starting at position `i`.
pub open spec fn occurs_at(hay: Seq<char>, needle: Seq<char>, i: int) -> bool {
    0 <= i && i + needle.len() <= hay.len() && hay.subrange(i, i + needle.len() as int) == needle
}

/// `needle` occurs somewhere in `hay`.
pub open spec fn occurs(hay: Seq<char>, needle: Seq<char>) -> bool {
    exists|i: int| occurs_at(hay, needle, i)
}

/// Substring search over character vectors.
pub fn contains_sub(hay: &Vec<char>, needle: &Vec<char>) -> (r: bool)
    ensures
        r == occurs(hay@, needle@),
{
    let hn = hay.len();
    let nn = needle.len();
    if nn > hn {
        assert(forall|i: int| !occurs_at(hay@, needle@, i));
        return false;
    }
    if nn == 0 {
        proof {
            assert(hay@.subrange(0, 0) =~= needle@);
            assert(occurs_at(hay@, needle@, 0));
        }
        return true;
    }
    let mut i: usize = 0;
    while i <= hn - nn
        invariant
            0 <= i <= hn - nn + 1,
            1 <= nn <= hn,
            hn == hay@.len(),
            nn == needle@.len(),
            forall|p: int| 0 <= p < i ==> !occurs_at(hay@, needle@, p),
        decreases hn + 1 - i,
    {
        let mut j: usize = 0;
        let mut hit = true;
        while j < nn
            invariant
                0 <= j <= nn,
                0 <= i <= hn - nn,
                hn == hay@.len(),
                nn == needle@.len(),
                hit ==> forall|q: int| 0 <= q < j ==> hay@[i + q] == needle@[q],
                !hit ==> !occurs_at(hay@, needle@, i as int),
            decreases nn - j,
        {
            if hay[i + j] != needle[j] {
                proof {
                    if occurs_at(hay@, needle@, i as int) {
                        assert(hay@.subrange(i as int, i + nn as int)[j as int] == needle@[j as int]);
                    }
                }
                hit = false;
                j = nn;
            } else {
                j += 1;
            }
        }
        if hit {
            proof {
                assert(hay@.subrange(i as int, i + nn as int) =~= needle@);
                assert(occurs_at(hay@, needle@, i as int));
            }
            return true;
        }
        i += 1;
    }
    proof {
        assert forall|p: int| !occurs_at(hay@, needle@, p) by {
            if occurs_at(hay@, needle@, p) {
                assert(0 <= p < i);
            }
        }
    }
    false
}

/// The scaled fractional part is never negative when it is all digits.
proof fn frac_scaled_nonneg(f: Seq<char>, k: nat)
    requires
        forall|j: int| 0 <= j < f.len() ==> is_digit(#[trigger] f[j]),
    ensures
        frac_scaled(f, k) >= 0,
{
    if f.len() >= k {
        lemma_digits_value_nonneg(f.subrange(0, k as int));
    } else {
        lemma_digits_value_nonneg(f);
        lemma_pow10_pos((k - f.len()) as nat);
        assert(digits_value(f) * pow10((k - f.len()) as nat) >= 0) by (nonlinear_arith)
            requires
                digits_value(f) >= 0,
                pow10((k - f.len()) as nat) >= 1,
        ;
    }
}

} // verus!
