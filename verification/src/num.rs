//! Base-10 string form of integers: the formatting used for every numeric
//! wire value, and the parsing used to decode one back at a requested width.
//!
//! The grammar accepted when parsing is an optional sign followed by one or
//! more digits; a leading `-` is rejected for unsigned targets, and a value
//! outside the target range is rejected rather than wrapped or truncated.

use vstd::prelude::*;

verus! {

/// The digit character for `d` (meaningful for `0 <= d <= 9`).
pub open spec fn digit_char(d: int) -> char {
    ((48 + d) as u8) as char
}

/// The base-10 digit string of `n`, most significant digit first.
pub open spec fn dec_digits(n: nat) -> Seq<char>
    decreases n,
{
    if n < 10 {
        seq![digit_char(n as int)]
    } else {
        dec_digits(n / 10).push(digit_char((n % 10) as int))
    }
}

/// The base-10 string of `i`: a `-` sign for negative values, then digits.
pub open spec fn dec_str_int(i: int) -> Seq<char> {
    if i < 0 {
        seq!['-'] + dec_digits((-i) as nat)
    } else {
        dec_digits(i as nat)
    }
}

/// Whether `c` is a base-10 digit.
pub open spec fn is_digit(c: char) -> bool {
    48 <= c as int <= 57
}

/// The value of digit `c`.
pub open spec fn digit_val(c: char) -> int {
    c as int - 48
}

/// Whether every character of `s` is a base-10 digit.
pub open spec fn all_digits(s: Seq<char>) -> bool {
    forall|i: int| 0 <= i < s.len() ==> is_digit(s[i])
}

/// The value of the digit string `s`.
pub open spec fn digits_val(s: Seq<char>) -> int
    decreases s.len(),
{
    if s.len() == 0 {
        0
    } else {
        digits_val(s.drop_last()) * 10 + digit_val(s.last())
    }
}

/// Whether `s` starts with a minus sign.
pub open spec fn has_minus(s: Seq<char>) -> bool {
    s.len() > 0 && s[0] == '-'
}

/// The mathematical value of `s` read as an optionally signed base-10
/// integer, or `None` when `s` is not of that form.  No range is imposed.
pub open spec fn dec_to_int(s: Seq<char>) -> Option<int> {
    if s.len() == 0 {
        Option::None
    } else {
        let body = if s[0] == '+' || s[0] == '-' {
            s.drop_first()
        } else {
            s
        };
        if body.len() > 0 && all_digits(body) {
            if s[0] == '-' {
                Option::Some(-digits_val(body))
            } else {
                Option::Some(digits_val(body))
            }
        } else {
            Option::None
        }
    }
}

/// Ten to the `k`.
pub open spec fn pow10(k: nat) -> int
    decreases k,
{
    if k == 0 {
        1
    } else {
        10 * pow10((k - 1) as nat)
    }
}

/// A digit string is never negative and stays under `pow10` of its length.
pub proof fn lemma_digits_val_bounds(s: Seq<char>)
    requires
        all_digits(s),
    ensures
        0 <= digits_val(s) < pow10(s.len()),
    decreases s.len(),
{
    if s.len() > 0 {
        lemma_digits_val_bounds(s.drop_last());
        assert(pow10(s.len()) == 10 * pow10((s.len() - 1) as nat));
    }
}

/// A digit string without a leading zero reaches `pow10` of one less than
/// its length.
pub proof fn lemma_digits_val_lower(s: Seq<char>)
    requires
        all_digits(s),
        s.len() > 0,
        s[0] != '0',
    ensures
        digits_val(s) >= pow10((s.len() - 1) as nat),
    decreases s.len(),
{
    assert(digit_char(0) == '0');
    if s.len() == 1 {
        reveal_with_fuel(digits_val, 2);
        assert(s.drop_last().len() == 0);
        assert(s.last() == s[0]);
        assert(digits_val(s) == digit_val(s[0]));
        assert(s[0] as int != 48) by {
            assert(((48 as u8) as char) == '0');
        }
    } else {
        lemma_digits_val_lower(s.drop_last());
        lemma_digits_val_bounds(s);
        assert(digit_val(s.last()) >= 0);
        assert(pow10((s.len() - 1) as nat) == 10 * pow10((s.len() - 2) as nat));
    }
}

/// Leading zeros do not change the value of a digit string.
pub proof fn lemma_digits_val_skip_zeros(s: Seq<char>, k: int)
    requires
        all_digits(s),
        0 <= k <= s.len(),
        forall|i: int| 0 <= i < k ==> s[i] == '0',
    ensures
        digits_val(s) == digits_val(s.skip(k)),
    decreases s.len(),
{
    if k > 0 && s.len() > 0 {
        if k == s.len() {
            lemma_digits_val_zeros(s);
        } else {
            lemma_digits_val_skip_zeros(s.drop_last(), k);
            assert(s.skip(k).drop_last() =~= s.drop_last().skip(k));
            assert(s.skip(k).last() == s.last());
        }
    } else {
        assert(s.skip(0) =~= s);
    }
}

/// A string of zeros has value zero.
pub proof fn lemma_digits_val_zeros(s: Seq<char>)
    requires
        forall|i: int| 0 <= i < s.len() ==> s[i] == '0',
    ensures
        digits_val(s) == 0,
    decreases s.len(),
{
    assert(digit_char(0) == '0');
    if s.len() > 0 {
        lemma_digits_val_zeros(s.drop_last());
        assert(digit_val('0') == 0) by {
            assert(((48 as u8) as char) == '0');
        }
    }
}

/// The digit string of `n` is made of digits, has no leading zero unless it
/// is `"0"`, and evaluates back to `n`.
pub proof fn lemma_dec_digits(n: nat)
    ensures
        all_digits(dec_digits(n)),
        dec_digits(n).len() >= 1,
        digits_val(dec_digits(n)) == n,
        dec_digits(n)[0] != '0' || n == 0,
        n == 0 ==> dec_digits(n) =~= seq!['0'],
    decreases n,
{
    if n < 10 {
        reveal_with_fuel(digits_val, 2);
        let one = dec_digits(n);
        assert(one =~= seq![digit_char(n as int)]);
        assert(one.drop_last().len() == 0);
        assert(one.last() == digit_char(n as int));
        assert(is_digit(digit_char(n as int)));
        assert(digit_val(digit_char(n as int)) == n);
        assert(digits_val(one) == digit_val(digit_char(n as int)));
        assert(digit_char(0) == '0');
        if n != 0 {
            assert(digit_char(n as int) != '0');
        }
    } else {
        lemma_dec_digits(n / 10);
        let pre = dec_digits(n / 10);
        let whole = pre.push(digit_char((n % 10) as int));
        assert(whole.drop_last() =~= pre);
        assert(whole.last() == digit_char((n % 10) as int));
        assert(is_digit(digit_char((n % 10) as int)));
        assert(digit_val(digit_char((n % 10) as int)) == n % 10);
        assert(digits_val(whole) == digits_val(pre) * 10 + n % 10);
        assert(whole[0] == pre[0]);
    }
}

/// Formatting an integer and reading it back is the identity: the base-10
/// string of any `i` parses to exactly `i`.
pub proof fn lemma_dec_round_trip(i: int)
    ensures
        dec_to_int(dec_str_int(i)) == Option::Some(i),
        !has_minus(dec_str_int(i)) <==> i >= 0,
{
    if i >= 0 {
        lemma_dec_digits(i as nat);
        let s = dec_str_int(i);
        assert(s == dec_digits(i as nat));
        assert(s[0] != '+' && s[0] != '-') by {
            assert(is_digit(s[0]));
        }
    } else {
        lemma_dec_digits((-i) as nat);
        let s = dec_str_int(i);
        assert(s[0] == '-');
        assert(s.drop_first() =~= dec_digits((-i) as nat));
    }
}

/// The one-character string holding the digit for `d`.
fn digit_string(d: u64) -> (r: String)
    requires
        d < 10,
    ensures
        r@ =~= seq![digit_char(d as int)],
{
    let ds = "0123456789";
    proof {
        reveal_strlit("0123456789");
    }
    let sub = ds.substring_ascii(d as usize, d as usize + 1);
    sub.to_owned()
}

/// The base-10 string of `n`.
pub fn format_u64(n: u64) -> (r: String)
    ensures
        r@ =~= dec_digits(n as nat),
    decreases n,
{
    if n < 10 {
        digit_string(n)
    } else {
        let mut s = format_u64(n / 10);
        let d = digit_string(n % 10);
        s.append(d.as_str());
        s
    }
}

/// The base-10 string of `i`, with a `-` sign when negative.
pub fn format_i64(i: i64) -> (r: String)
    ensures
        r@ =~= dec_str_int(i as int),
{
    if i >= 0 {
        format_u64(i as u64)
    } else {
        let mag: u64 = ((-(i + 1)) as u64) + 1;
        assert(mag == -(i as int));
        let mut s = String::from_str("-");
        proof {
            reveal_strlit("-");
        }
        let d = format_u64(mag);
        s.append(d.as_str());
        s
    }
}

/// Reads `s` as an unsigned base-10 integer no greater than `max`.
/// Returns the value exactly when `s` is a well-formed unsigned number (an
/// optional `+` then digits) whose value is within bound.
#[verifier::loop_isolation(false)]
#[verifier::rlimit(60)]
pub fn parse_u64_bounded(s: &str, max: u64) -> (r: Option<u64>)
    ensures
        match r {
            Option::Some(v) => dec_to_int(s@) == Option::Some(v as int) && !has_minus(s@) && v
                <= max,
            Option::None => match dec_to_int(s@) {
                Option::Some(v) => has_minus(s@) || v > max,
                Option::None => true,
            },
        },
{
    let n = s.unicode_len();
    if n == 0 {
        return Option::None;
    }
    let first = s.get_char(0);
    let start: usize = if first == '+' {
        1
    } else {
        0
    };
    if first == '-' {
        return Option::None;
    }
    if start >= n {
        return Option::None;
    }
    let ghost body = if s@[0] == '+' || s@[0] == '-' {
        s@.drop_first()
    } else {
        s@
    };
    assert(body =~= s@.skip(start as int));
    // Every character after the sign must be a digit.
    let mut i: usize = start;
    while i < n
        invariant
            start <= i <= n,
            n == s@.len(),
            start < n,
            body =~= s@.skip(start as int),
            forall|j: int| start <= j < i ==> is_digit(s@[j]),
        decreases n - i,
    {
        let c = s.get_char(i);
        let u = c as u32;
        if !(48 <= u && u <= 57) {
            proof {
                assert(body.len() == n - start);
                assert(body[i - start as int] == s@[i as int]);
                assert(!is_digit(s@[i as int]));
                assert(!all_digits(body));
                if s@[0] == '+' || s@[0] == '-' {
                    assert(body == s@.drop_first());
                    assert(dec_to_int(s@) is None);
                } else {
                    assert(body == s@);
                    assert(dec_to_int(s@) is None);
                }
            }
            return Option::None;
        }
        i = i + 1;
    }
    assert(all_digits(body)) by {
        assert(forall|j: int| 0 <= j < body.len() ==> body[j] == s@[j + start as int]);
    }
    // Skip leading zeros; what remains decides the value.
    let mut z: usize = start;
    while z < n && s.get_char(z) == '0'
        invariant
            start <= z <= n,
            n == s@.len(),
            forall|j: int| start <= j < z ==> s@[j] == '0',
        decreases n - z,
    {
        z = z + 1;
    }
    assert(z == n || s@[z as int] != '0');
    proof {
        assert(forall|j: int| 0 <= j < z - start ==> body[j] == s@[j + start as int]);
        lemma_digits_val_skip_zeros(body, z - start as int);
        assert(body.skip(z - start as int) =~= s@.skip(z as int));
    }
    let ghost sig = s@.skip(z as int);
    assert(digits_val(body) == digits_val(sig));
    assert(all_digits(sig)) by {
        assert(forall|j: int| 0 <= j < sig.len() ==> sig[j] == s@[j + z as int]);
    }
    if z == n {
        // All zeros.
        assert(digits_val(sig) == 0) by {
            lemma_digits_val_zeros(sig);
        }
        return Option::Some(0);
    }
    assert(s@[z as int] != '0');
    if n - z > 20 {
        // At least 21 significant digits: beyond any 64-bit value.
        proof {
            lemma_digits_val_lower(sig);
            lemma_pow10_mono(20, (sig.len() - 1) as nat);
            lemma_pow10_20();
        }
        return Option::None;
    }
    proof {
        lemma_pow10_20();
    }
    let mut acc: u128 = 0;
    let mut k: usize = z;
    while k < n
        invariant
            z <= k <= n,
            n == s@.len(),
            n - z <= 20,
            sig =~= s@.skip(z as int),
            all_digits(sig),
            acc == digits_val(sig.take(k - z as int)),
            acc < pow10(20),
        decreases n - k,
    {
        let c = s.get_char(k);
        proof {
            assert(sig[k - z as int] == s@[k as int]);
            assert(is_digit(s@[k as int]));
            let t = sig.take(k + 1 - z as int);
            assert(forall|j: int| 0 <= j < t.len() ==> t[j] == sig[j]);
            assert(t.drop_last() =~= sig.take(k - z as int));
            assert(t.last() == s@[k as int]);
            lemma_digits_val_bounds(t);
            lemma_pow10_mono((k + 1 - z) as nat, 20);
            lemma_pow10_20();
        }
        let d: u128 = (c as u32 - 48) as u128;
        acc = acc * 10 + d;
        k = k + 1;
    }
    assert(sig.take(n - z as int) =~= sig);
    proof {
        lemma_pow10_20();
    }
    if acc <= max as u128 {
        Option::Some(acc as u64)
    } else {
        Option::None
    }
}

/// `pow10` grows with its exponent.
pub proof fn lemma_pow10_mono(a: nat, b: nat)
    requires
        a <= b,
    ensures
        pow10(a) <= pow10(b),
    decreases b,
{
    if a < b {
        lemma_pow10_mono(a, (b - 1) as nat);
        assert(pow10((b - 1) as nat) >= 1) by {
            lemma_pow10_pos((b - 1) as nat);
        }
    }
}

/// `pow10` is positive.
pub proof fn lemma_pow10_pos(k: nat)
    ensures
        pow10(k) >= 1,
    decreases k,
{
    if k > 0 {
        lemma_pow10_pos((k - 1) as nat);
    }
}

/// The concrete value of `pow10(20)`, and that it exceeds `u64::MAX`.
pub proof fn lemma_pow10_20()
    ensures
        pow10(20) == 0x56bc75e2d63100000,
        pow10(20) > u64::MAX,
{
    reveal_with_fuel(pow10, 21);
}

/// Reads `s` as a signed base-10 integer in `[min, max]`.  Returns the value
/// exactly when `s` is a well-formed signed number (an optional sign then
/// digits) whose value lies in the range.
pub fn parse_i64_bounded(s: &str, min: i64, max: i64) -> (r: Option<i64>)
    requires
        min < 0 < max,
    ensures
        match r {
            Option::Some(v) => dec_to_int(s@) == Option::Some(v as int) && min <= v <= max,
            Option::None => match dec_to_int(s@) {
                Option::Some(v) => v < min || v > max,
                Option::None => true,
            },
        },
{
    let n = s.unicode_len();
    if n == 0 {
        return Option::None;
    }
    let first = s.get_char(0);
    if first == '-' {
        let rest = s.substring_char(1, n);
        assert(rest@ =~= s@.drop_first());
        if rest.unicode_len() > 0 {
            let second = rest.get_char(0);
            if second == '+' || second == '-' {
                // A second sign is not part of a number.
                assert(dec_to_int(s@) is None) by {
                    assert(!is_digit(s@.drop_first()[0]));
                }
                return Option::None;
            }
        }
        // The magnitude of any in-range negative value is at most 2^63.
        match parse_u64_bounded(rest, 9223372036854775808u64) {
            Option::Some(mag) => {
                assert(dec_to_int(rest@) == Option::Some(mag as int));
                assert(all_digits(rest@) && rest@.len() > 0);
                assert(digits_val(rest@) == mag as int);
                assert(dec_to_int(s@) == Option::Some(-(mag as int)));
                let neg_min_mag: u64 = ((-(min + 1)) as u64) + 1;
                assert(neg_min_mag == -(min as int));
                if mag <= neg_min_mag {
                    let v: i64 = if mag >= 9223372036854775808u64 {
                        i64::MIN
                    } else {
                        -(mag as i64)
                    };
                    assert(v as int == -(mag as int));
                    Option::Some(v)
                } else {
                    Option::None
                }
            },
            Option::None => {
                assert(match dec_to_int(s@) {
                    Option::Some(v) => v < min,
                    Option::None => true,
                }) by {
                    if dec_to_int(s@) is Some {
                        assert(all_digits(rest@) && rest@.len() > 0);
                        assert(dec_to_int(rest@) == Option::Some(digits_val(rest@)));
                    }
                }
                Option::None
            },
        }
    } else {
        assert(!has_minus(s@));
        match parse_u64_bounded(s, i64::MAX as u64) {
            Option::Some(v) => {
                if v <= max as u64 {
                    Option::Some(v as i64)
                } else {
                    Option::None
                }
            },
            Option::None => Option::None,
        }
    }
}

} // verus!
