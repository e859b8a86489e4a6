//! Decimal machinery for the line grammar: character classes, digit runs,
//! digit values, powers of ten, and scaling with round-to-nearest.
//!
//! The download tool prints sizes such as `9.84MiB` and percentages such as
//! `0.2%`.  The grammar reads them as exact decimal fractions (a mantissa over
//! a power of ten) and rounds once at the end, so every value here is computed
//! in integer arithmetic.

use vstd::prelude::*;

verus! {

/// True of the ASCII decimal digits.
pub open spec fn is_digit_char(c: char) -> bool {
    48 <= c as u32 <= 57
}

/// Numeric value of an ASCII digit.
pub open spec fn digit_val(c: char) -> int {
    c as u32 - 48
}

/// True of the characters the grammar skips as blank space.
pub open spec fn is_space_char(c: char) -> bool {
    c == ' ' || c == '\t' || c == '\n' || c == '\r'
}

/// True of the characters a numeric token may contain.
pub open spec fn is_numtok_char(c: char) -> bool {
    is_digit_char(c) || c == '.'
}

/// First position at or after `i` that does not hold a digit.
pub open spec fn digit_run_end(s: Seq<char>, i: int) -> int
    decreases s.len() - i when 0 <= i <= s.len()
{
    if i < s.len() && is_digit_char(s[i]) {
        digit_run_end(s, i + 1)
    } else {
        i
    }
}

/// First position at or after `i` that does not hold blank space.
pub open spec fn space_run_end(s: Seq<char>, i: int) -> int
    decreases s.len() - i when 0 <= i <= s.len()
{
    if i < s.len() && is_space_char(s[i]) {
        space_run_end(s, i + 1)
    } else {
        i
    }
}

/// First position at or after `i` that holds neither a digit nor a dot.
pub open spec fn numtok_run_end(s: Seq<char>, i: int) -> int
    decreases s.len() - i when 0 <= i <= s.len()
{
    if i < s.len() && is_numtok_char(s[i]) {
        numtok_run_end(s, i + 1)
    } else {
        i
    }
}

pub proof fn lemma_digit_run_end(s: Seq<char>, i: int)
    requires
        0 <= i <= s.len(),
    ensures
        i <= digit_run_end(s, i) <= s.len(),
        forall|k: int| i <= k < digit_run_end(s, i) ==> is_digit_char(s[k]),
        digit_run_end(s, i) < s.len() ==> !is_digit_char(s[digit_run_end(s, i)]),
    decreases s.len() - i,
{
    if i < s.len() && is_digit_char(s[i]) {
        lemma_digit_run_end(s, i + 1);
    }
}

pub proof fn lemma_space_run_end(s: Seq<char>, i: int)
    requires
        0 <= i <= s.len(),
    ensures
        i <= space_run_end(s, i) <= s.len(),
        forall|k: int| i <= k < space_run_end(s, i) ==> is_space_char(s[k]),
        space_run_end(s, i) < s.len() ==> !is_space_char(s[space_run_end(s, i)]),
    decreases s.len() - i,
{
    if i < s.len() && is_space_char(s[i]) {
        lemma_space_run_end(s, i + 1);
    }
}

pub proof fn lemma_numtok_run_end(s: Seq<char>, i: int)
    requires
        0 <= i <= s.len(),
    ensures
        i <= numtok_run_end(s, i) <= s.len(),
        forall|k: int| i <= k < numtok_run_end(s, i) ==> is_numtok_char(s[k]),
        numtok_run_end(s, i) < s.len() ==> !is_numtok_char(s[numtok_run_end(s, i)]),
    decreases s.len() - i,
{
    if i < s.len() && is_numtok_char(s[i]) {
        lemma_numtok_run_end(s, i + 1);
    }
}

/// Executable test for [`is_digit_char`].
pub fn is_digit(c: char) -> (r: bool)
    ensures
        r == is_digit_char(c),
{
    let u = c as u32;
    48 <= u && u <= 57
}

/// Executable test for [`is_space_char`].
pub fn is_space(c: char) -> (r: bool)
    ensures
        r == is_space_char(c),
{
    c == ' ' || c == '\t' || c == '\n' || c == '\r'
}

/// Executable test for [`is_numtok_char`]; mirrors the character class the
/// progress grammar allows inside a number.
pub fn is_char_digit(c: char) -> (r: bool)
    ensures
        r == is_numtok_char(c),
{
    is_digit(c) || c == '.'
}

/// Scans to the end of the digit run that starts at `i`.
pub fn digit_run(s: &str, i: usize) -> (j: usize)
    requires
        i <= s@.len(),
    ensures
        j == digit_run_end(s@, i as int),
        i <= j <= s@.len(),
        forall|k: int| i <= k < j ==> is_digit_char(s@[k]),
        j < s@.len() ==> !is_digit_char(s@[j as int]),
{
    let n = s.unicode_len();
    let mut j = i;
    while j < n && is_digit(s.get_char(j))
        invariant
            i <= j <= n,
            n == s@.len(),
            digit_run_end(s@, i as int) == digit_run_end(s@, j as int),
        decreases n - j,
    {
        j += 1;
    }
    proof {
        lemma_digit_run_end(s@, j as int);
        lemma_digit_run_end(s@, i as int);
    }
    j
}

/// Scans to the end of the blank-space run that starts at `i`.
pub fn space_run(s: &str, i: usize) -> (j: usize)
    requires
        i <= s@.len(),
    ensures
        j == space_run_end(s@, i as int),
        i <= j <= s@.len(),
{
    let n = s.unicode_len();
    let mut j = i;
    while j < n && is_space(s.get_char(j))
        invariant
            i <= j <= n,
            n == s@.len(),
            space_run_end(s@, i as int) == space_run_end(s@, j as int),
        decreases n - j,
    {
        j += 1;
    }
    proof {
        lemma_space_run_end(s@, i as int);
    }
    j
}

/// Scans to the end of the numeric-token run that starts at `i`.
pub fn numtok_run(s: &str, i: usize) -> (j: usize)
    requires
        i <= s@.len(),
    ensures
        j == numtok_run_end(s@, i as int),
        i <= j <= s@.len(),
        forall|k: int| i <= k < j ==> is_numtok_char(s@[k]),
        j < s@.len() ==> !is_numtok_char(s@[j as int]),
{
    let n = s.unicode_len();
    let mut j = i;
    while j < n && is_char_digit(s.get_char(j))
        invariant
            i <= j <= n,
            n == s@.len(),
            numtok_run_end(s@, i as int) == numtok_run_end(s@, j as int),
        decreases n - j,
    {
        j += 1;
    }
    proof {
        lemma_numtok_run_end(s@, j as int);
        lemma_numtok_run_end(s@, i as int);
    }
    j
}

/// Ten to the `k`th power.
pub open spec fn pow10(k: nat) -> int
    decreases k
{
    if k == 0 {
        1
    } else {
        10 * pow10((k - 1) as nat)
    }
}

pub proof fn lemma_pow10_pos(k: nat)
    ensures
        pow10(k) >= 1,
    decreases k,
{
    if k > 0 {
        lemma_pow10_pos((k - 1) as nat);
    }
}

pub proof fn lemma_pow10_mono(a: nat, b: nat)
    requires
        a <= b,
    ensures
        pow10(a) <= pow10(b),
    decreases b,
{
    if a < b {
        lemma_pow10_mono(a, (b - 1) as nat);
        lemma_pow10_pos((b - 1) as nat);
    }
}

pub proof fn lemma_pow10_add(a: nat, b: nat)
    ensures
        pow10(a + b) == pow10(a) * pow10(b),
    decreases b,
{
    if b == 0 {
        assert(pow10(a + 0) == pow10(a) * 1);
    } else {
        lemma_pow10_add(a, (b - 1) as nat);
        assert(pow10((a + b - 1) as nat) == pow10(a) * pow10((b - 1) as nat));
        assert(pow10(a + b) == 10 * pow10((a + b - 1) as nat));
        assert(10 * (pow10(a) * pow10((b - 1) as nat)) == pow10(a) * (10 * pow10(
            (b - 1) as nat,
        ))) by (nonlinear_arith);
    }
}

/// The value of ten to the nineteenth power, the largest power of ten a
/// `u64` mantissa is allowed to reach.
pub proof fn lemma_pow10_19()
    ensures
        pow10(19) == 10_000_000_000_000_000_000,
        pow10(10) == 10_000_000_000,
{
    reveal_with_fuel(pow10, 21);
}

/// Ten to the `k`th power, computed in a machine word.
pub fn pow10_u64(k: usize) -> (r: u64)
    requires
        k <= 19,
    ensures
        r == pow10(k as nat),
{
    proof {
        lemma_pow10_19();
    }
    let mut r: u64 = 1;
    let mut i: usize = 0;
    while i < k
        invariant
            i <= k <= 19,
            r == pow10(i as nat),
        decreases k - i,
    {
        proof {
            lemma_pow10_mono((i + 1) as nat, 19);
            lemma_pow10_19();
        }
        r = r * 10;
        i += 1;
    }
    r
}

/// The number denoted by the digits of `s` from `i` (inclusive) to `j`
/// (exclusive), most significant first.
pub open spec fn digits_val(s: Seq<char>, i: int, j: int) -> int
    decreases j - i when 0 <= i <= j <= s.len()
{
    if i < j {
        digits_val(s, i, j - 1) * 10 + digit_val(s[j - 1])
    } else {
        0
    }
}

pub proof fn lemma_digits_val_bounds(s: Seq<char>, i: int, j: int)
    requires
        0 <= i <= j <= s.len(),
        forall|k: int| i <= k < j ==> is_digit_char(s[k]),
    ensures
        0 <= digits_val(s, i, j) < pow10((j - i) as nat),
    decreases j - i,
{
    if i < j {
        lemma_digits_val_bounds(s, i, j - 1);
        assert(pow10((j - i) as nat) == 10 * pow10((j - i - 1) as nat));
    }
}

/// A run of zero digits denotes zero.
pub proof fn lemma_digits_val_zeros(s: Seq<char>, i: int, j: int)
    requires
        0 <= i <= j <= s.len(),
        forall|k: int| i <= k < j ==> digit_val(s[k]) == 0,
    ensures
        digits_val(s, i, j) == 0,
    decreases j - i,
{
    if i < j {
        lemma_digits_val_zeros(s, i, j - 1);
        assert(digit_val(s[j - 1]) == 0);
    }
}

/// Leading zeros do not change the denoted number.
pub proof fn lemma_digits_val_leading_zeros(s: Seq<char>, i: int, z: int, j: int)
    requires
        0 <= i <= z <= j <= s.len(),
        forall|k: int| i <= k < z ==> digit_val(s[k]) == 0,
    ensures
        digits_val(s, i, j) == digits_val(s, z, j),
    decreases j - z,
{
    if z == j {
        lemma_digits_val_zeros(s, i, j);
    } else {
        lemma_digits_val_leading_zeros(s, i, z, j - 1);
    }
}

/// A run that starts with a nonzero digit denotes at least ten to the power
/// of its remaining length.
pub proof fn lemma_digits_val_lower(s: Seq<char>, i: int, j: int)
    requires
        0 <= i < j <= s.len(),
        forall|k: int| i <= k < j ==> is_digit_char(s[k]),
        digit_val(s[i]) >= 1,
    ensures
        digits_val(s, i, j) >= pow10((j - i - 1) as nat),
    decreases j - i,
{
    if i + 1 == j {
        assert(digit_val(s[i]) >= 1);
    } else {
        lemma_digits_val_lower(s, i, j - 1);
        lemma_digits_val_bounds(s, i, j - 1);
        assert(pow10((j - i - 1) as nat) == 10 * pow10((j - i - 2) as nat));
        assert(digits_val(s, i, j) == digits_val(s, i, j - 1) * 10 + digit_val(s[j - 1]));
        assert(digit_val(s[j - 1]) >= 0);
        assert(digits_val(s, i, j - 1) * 10 >= pow10((j - i - 2) as nat) * 10) by (nonlinear_arith)
            requires
                digits_val(s, i, j - 1) >= pow10((j - i - 2) as nat),
        ;
    }
}

/// Reads the digits of `s` in `[a, b)` as a machine number; the caller keeps
/// the run short enough that no overflow can occur.
pub fn read_digits_u64(s: &str, a: usize, b: usize) -> (v: u64)
    requires
        a <= b <= s@.len(),
        b - a <= 19,
        forall|k: int| a <= k < b ==> is_digit_char(s@[k]),
    ensures
        v == digits_val(s@, a as int, b as int),
{
    proof {
        lemma_pow10_19();
    }
    let mut v: u64 = 0;
    let mut k = a;
    while k < b
        invariant
            a <= k <= b <= s@.len(),
            b - a <= 19,
            forall|j: int| a <= j < b ==> is_digit_char(s@[j]),
            v == digits_val(s@, a as int, k as int),
            v < pow10((k - a) as nat),
        decreases b - k,
    {
        proof {
            lemma_pow10_mono((k - a + 1) as nat, 19);
            lemma_pow10_19();
            assert(pow10((k - a + 1) as nat) == 10 * pow10((k - a) as nat));
        }
        let d = (s.get_char(k) as u32) - 48;
        assert(is_digit_char(s@[k as int]));
        assert(d <= 9);
        v = v * 10 + (d as u64);
        k += 1;
    }
    v
}

/// Reads the digits of `s` in `[a, b)` when they denote a value that fits a
/// `u32`; reports `None` when the value is too large.
pub fn read_u32_digits(s: &str, a: usize, b: usize) -> (r: Option<u32>)
    requires
        a < b <= s@.len(),
        forall|k: int| a <= k < b ==> is_digit_char(s@[k]),
    ensures
        match r {
            Some(v) => v == digits_val(s@, a as int, b as int),
            None => digits_val(s@, a as int, b as int) > u32::MAX,
        },
{
    proof {
        lemma_pow10_19();
    }
    // skip leading zeros so that only the significant digits are accumulated
    let mut z = a;
    while z < b && s.get_char(z) as u32 == 48
        invariant
            a <= z <= b <= s@.len(),
            forall|k: int| a <= k < z ==> digit_val(s@[k]) == 0,
        decreases b - z,
    {
        z += 1;
    }
    proof {
        lemma_digits_val_leading_zeros(s@, a as int, z as int, b as int);
    }
    if z == b {
        proof {
            lemma_digits_val_zeros(s@, z as int, b as int);
        }
        return Some(0);
    }
    if b - z > 10 {
        proof {
            lemma_digits_val_lower(s@, z as int, b as int);
            lemma_pow10_mono(10, (b - z - 1) as nat);
            lemma_pow10_19();
        }
        return None;
    }
    let v = read_digits_u64(s, z, b);
    if v > 0xFFFF_FFFF {
        None
    } else {
        Some(v as u32)
    }
}

/// First position at or after `i` that does not hold the digit zero.
pub open spec fn zero_run_end(s: Seq<char>, i: int) -> int
    decreases s.len() - i when 0 <= i <= s.len()
{
    if i < s.len() && digit_val(s[i]) == 0 {
        zero_run_end(s, i + 1)
    } else {
        i
    }
}

/// A decimal token: one or more digits with at most one dot among them.
pub open spec fn is_dec_token(s: Seq<char>, a: int, b: int) -> bool {
    &&& 0 <= a < b <= s.len()
    &&& (forall|k: int| a <= k < b ==> is_numtok_char(s[k]))
    &&& (exists|k: int| a <= k < b && is_digit_char(s[k]))
    &&& (forall|k1: int, k2: int|
        a <= k1 < b && a <= k2 < b && s[k1] == '.' && s[k2] == '.' ==> k1 == k2)
}

/// Position of the dot of a decimal token, or `b` when it has none.
pub open spec fn dec_dot(s: Seq<char>, a: int, b: int) -> int {
    if exists|k: int| a <= k < b && s[k] == '.' {
        choose|k: int| a <= k < b && s[k] == '.'
    } else {
        b
    }
}

/// The mantissa of a decimal token: its digits with the dot removed, read as
/// one number.
pub open spec fn dec_mant(s: Seq<char>, a: int, b: int) -> int {
    let d = dec_dot(s, a, b);
    if d == b {
        digits_val(s, a, b)
    } else {
        digits_val(s, a, d) * pow10((b - d - 1) as nat) + digits_val(s, d + 1, b)
    }
}

/// The denominator of a decimal token: ten to the number of its fraction
/// digits, so that the token denotes `dec_mant / dec_scale`.
pub open spec fn dec_scale(s: Seq<char>, a: int, b: int) -> int {
    let d = dec_dot(s, a, b);
    if d == b {
        1
    } else {
        pow10((b - d - 1) as nat)
    }
}

/// How many digits of a decimal token matter: all of them except the zeros
/// before the first nonzero digit of the whole part.
pub open spec fn dec_sig_digits(s: Seq<char>, a: int, b: int) -> int {
    let d = dec_dot(s, a, b);
    let z = zero_run_end(s, a);
    let zi = if z > d {
        d
    } else {
        z
    };
    (d - zi) + (if d == b {
        0
    } else {
        b - d - 1
    })
}

/// Reads the decimal token `[a, b)` of `s` as a mantissa/denominator pair in
/// machine words.  Reports `None` when the span is not a decimal token or
/// holds more than nineteen significant digits.
pub fn read_dec_token(s: &str, a: usize, b: usize) -> (r: Option<(u64, u64)>)
    requires
        a <= s@.len(),
        b == numtok_run_end(s@, a as int),
    ensures
        match r {
            Some(ms) => {
                &&& is_dec_token(s@, a as int, b as int)
                &&& dec_sig_digits(s@, a as int, b as int) <= 19
                &&& ms.0 == dec_mant(s@, a as int, b as int)
                &&& ms.1 == dec_scale(s@, a as int, b as int)
                &&& ms.0 < pow10(19)
                &&& 1 <= ms.1 <= pow10(19)
            },
            None => !(is_dec_token(s@, a as int, b as int) && dec_sig_digits(
                s@,
                a as int,
                b as int,
            ) <= 19),
        },
{
    proof {
        lemma_numtok_run_end(s@, a as int);
        lemma_pow10_19();
    }
    if a == b {
        return None;
    }
    let d = digit_run(s, a);
    proof {
        if d > b {
            assert(is_digit_char(s@[b as int]));
            assert(false);
        }
    }
    if d == b {
        // a token of digits only
        let mut z = a;
        while z < b && s.get_char(z) as u32 == 48
            invariant
                a <= z <= b <= s@.len(),
                forall|k: int| a <= k < z ==> digit_val(s@[k]) == 0,
            decreases b - z,
        {
            z += 1;
        }
        proof {
            lemma_zero_run_is(s@, a as int, z as int, b as int);
            assert(zero_run_end(s@, a as int) == z);
            lemma_no_dot(s@, a as int, b as int);
            assert(dec_dot(s@, a as int, b as int) == b);
            assert(is_digit_char(s@[a as int]));
        }
        if b - z > 19 {
            return None;
        }
        let iv = read_digits_u64(s, z, b);
        proof {
            lemma_digits_val_leading_zeros(s@, a as int, z as int, b as int);
            lemma_digits_val_bounds(s@, z as int, b as int);
            lemma_pow10_mono((b - z) as nat, 19);
        }
        Some((iv, 1))
    } else {
        // the first character after the whole part must be the dot
        assert(is_numtok_char(s@[d as int]) && !is_digit_char(s@[d as int]));
        assert(s@[d as int] == '.');
        let e = digit_run(s, d + 1);
        proof {
            if e > b {
                assert(is_digit_char(s@[b as int]));
                assert(false);
            }
        }
        if e < b {
            // a second dot: not a decimal token
            proof {
                assert(is_numtok_char(s@[e as int]) && !is_digit_char(s@[e as int]));
                assert(s@[e as int] == '.');
                assert(!is_dec_token(s@, a as int, b as int));
            }
            return None;
        }
        if a == d && d + 1 == b {
            // a lone dot has no digit
            proof {
                assert(forall|k: int|
                    a <= k < b ==> k == d && !is_digit_char(s@[k]));
                assert(!is_dec_token(s@, a as int, b as int));
            }
            return None;
        }
        proof {
            lemma_one_dot(s@, a as int, b as int, d as int);
            assert(dec_dot(s@, a as int, b as int) == d);
            if a < d {
                assert(is_digit_char(s@[a as int]));
            } else {
                assert(is_digit_char(s@[d + 1]));
            }
            assert(is_dec_token(s@, a as int, b as int));
        }
        let mut z = a;
        while z < d && s.get_char(z) as u32 == 48
            invariant
                a <= z <= d < s@.len(),
                forall|k: int| a <= k < z ==> digit_val(s@[k]) == 0,
            decreases d - z,
        {
            z += 1;
        }
        proof {
            lemma_zero_run_is(s@, a as int, z as int, d as int);
            assert(zero_run_end(s@, a as int) == z);
        }
        let intd = d - z;
        let fracd = b - d - 1;
        if intd > 19 || fracd > 19 - intd {
            return None;
        }
        let sc = pow10_u64(fracd);
        let iv = read_digits_u64(s, z, d);
        let fv = read_digits_u64(s, d + 1, b);
        proof {
            lemma_digits_val_bounds(s@, z as int, d as int);
            lemma_digits_val_bounds(s@, d + 1, b as int);
            lemma_pow10_add(intd as nat, fracd as nat);
            lemma_pow10_mono((intd + fracd) as nat, 19);
            assert(iv * sc <= (pow10(intd as nat) - 1) * pow10(fracd as nat))
                by (nonlinear_arith)
                requires
                    iv <= pow10(intd as nat) - 1,
                    sc == pow10(fracd as nat),
                    sc >= 1,
                    iv >= 0,
            ;
            assert((pow10(intd as nat) - 1) * pow10(fracd as nat) == pow10(intd as nat) * pow10(
                fracd as nat,
            ) - pow10(fracd as nat)) by (nonlinear_arith);
            lemma_digits_val_leading_zeros(s@, a as int, z as int, d as int);
            lemma_pow10_mono(fracd as nat, 19);
        }
        let mant = iv * sc + fv;
        Some((mant, sc))
    }
}

/// The exec zero-skipping loops stop exactly where [`zero_run_end`] stops.
proof fn lemma_zero_run_is(s: Seq<char>, a: int, z: int, stop: int)
    requires
        0 <= a <= z <= stop <= s.len(),
        forall|k: int| a <= k < z ==> digit_val(s[k]) == 0,
        z < s.len() ==> digit_val(s[z]) != 0,
    ensures
        zero_run_end(s, a) == z,
    decreases z - a,
{
    if a < z {
        lemma_zero_run_is(s, a + 1, z, stop);
    }
}

/// A span of digits holds no dot.
proof fn lemma_no_dot(s: Seq<char>, a: int, b: int)
    requires
        0 <= a <= b <= s.len(),
        forall|k: int| a <= k < b ==> is_digit_char(s[k]),
    ensures
        !(exists|k: int| a <= k < b && s[k] == '.'),
        dec_dot(s, a, b) == b,
{
    assert forall|k: int| a <= k < b implies s[k] != '.' by {
        if s[k] == '.' {
            assert(s[k] as u32 == 46);
        }
    }
}

/// A span whose only non-digit is a dot at `d` has its `dec_dot` there.
proof fn lemma_one_dot(s: Seq<char>, a: int, b: int, d: int)
    requires
        0 <= a <= d < b <= s.len(),
        s[d] == '.',
        forall|k: int| a <= k < d ==> is_digit_char(s[k]),
        forall|k: int| d < k < b ==> is_digit_char(s[k]),
    ensures
        dec_dot(s, a, b) == d,
        forall|k1: int, k2: int|
            a <= k1 < b && a <= k2 < b && s[k1] == '.' && s[k2] == '.' ==> k1 == k2,
{
    assert forall|k: int| a <= k < b && k != d implies s[k] != '.' by {
        if s[k] == '.' {
            assert(s[k] as u32 == 46);
            assert(is_digit_char(s[k]));
        }
    }
    assert(a <= d < b && s[d] == '.');
    assert(exists|k: int| a <= k < b && s[k] == '.');
    let c = choose|k: int| a <= k < b && s[k] == '.';
    assert(c == d);
}

/// The quotient `n / d` rounded to the nearest whole number, halves away
/// from zero.
pub open spec fn round_div(n: int, d: int) -> int
    recommends
        n >= 0,
        d >= 1,
{
    (2 * n + d) / (2 * d)
}

/// Clamps a nonnegative mathematical integer into a `u32`.
pub open spec fn sat_u32(x: int) -> u32
    recommends
        x >= 0,
{
    if x > u32::MAX {
        u32::MAX
    } else if x < 0 {
        0
    } else {
        x as u32
    }
}

/// Computes `mant * mult / scale` rounded to the nearest whole number and
/// clamped into a `u32`.
pub fn scaled_round(mant: u64, mult: u64, scale: u64) -> (r: u32)
    requires
        mant < pow10(19),
        1 <= mult <= 0x10_0000,
        1 <= scale <= pow10(19),
    ensures
        r == sat_u32(round_div(mant as int * mult as int, scale as int)),
{
    proof {
        lemma_pow10_19();
        assert(mant as int * mult as int <= pow10(19) * 0x10_0000) by (nonlinear_arith)
            requires
                mant < pow10(19),
                mult <= 0x10_0000,
                mant >= 0,
        ;
    }
    let n: u128 = (mant as u128) * (mult as u128);
    let d: u128 = scale as u128;
    let q: u128 = (2 * n + d) / (2 * d);
    proof {
        assert(q == round_div(mant as int * mult as int, scale as int));
        assert(2 * n + d >= d) by (nonlinear_arith)
            requires
                n >= 0,
                d >= 1,
        ;
        assert(q >= 0);
    }
    if q > 0xFFFF_FFFF {
        u32::MAX
    } else {
        q as u32
    }
}

} // verus!
