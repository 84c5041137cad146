use vstd::prelude::*;
use vstd::string::StringSliceAdditionalSpecFns;

verus! {

/// Smallest units in one whole unit of the network's currency.
pub const UNITS_PER_WHOLE: u64 = 1_000_000_000;

/// Fractional digits that the smallest unit resolves.
pub const DECIMALS: usize = 9;

/// The largest whole part whose units can still fit in a `u64`.
const WHOLE_LIMIT: u64 = 18_446_744_073;

/// Why an amount text gives no transferable amount.
#[derive(Clone, Copy, Debug, PartialEq, Eq)]
pub enum AmountError {
    /// The text is not digits with at most one decimal point.
    Malformed,
    /// The amount comes to zero smallest units.
    NotPositive,
    /// The amount does not fit in a `u64` of smallest units.
    TooLarge,
}

pub open spec fn is_digit(c: u8) -> bool {
    48 <= c <= 57
}

pub open spec fn all_digits(s: Seq<u8>) -> bool {
    forall|i: int| 0 <= i < s.len() ==> is_digit(#[trigger] s[i])
}

/// The number that a string of decimal digits denotes.
pub open spec fn digits_value(s: Seq<u8>) -> nat
    decreases s.len(),
{
    if s.len() == 0 {
        0
    } else {
        digits_value(s.drop_last()) * 10 + (s.last() - 48) as nat
    }
}

/// `i` is the one decimal point of `b`: digits stand before and after it.
pub open spec fn point_at(b: Seq<u8>, i: int) -> bool {
    &&& 0 <= i < b.len()
    &&& b[i] == 46
    &&& all_digits(b.take(i))
    &&& all_digits(b.skip(i + 1))
}

pub open spec fn has_point(b: Seq<u8>) -> bool {
    exists|i: int| point_at(b, i)
}

/// Digits, or digits around one decimal point, with at least one digit.
pub open spec fn well_formed(b: Seq<u8>) -> bool {
    if has_point(b) {
        b.len() > 1
    } else {
        b.len() > 0 && all_digits(b)
    }
}

/// The digits before the decimal point.
pub open spec fn whole_digits(b: Seq<u8>) -> Seq<u8> {
    if has_point(b) {
        b.take(choose|i: int| point_at(b, i))
    } else {
        b
    }
}

/// The digits after the decimal point.
pub open spec fn fraction_digits(b: Seq<u8>) -> Seq<u8> {
    if has_point(b) {
        b.skip((choose|i: int| point_at(b, i)) + 1)
    } else {
        Seq::empty()
    }
}

/// The `j`-th fractional digit, zero past the end.
pub open spec fn padded_digit(frac: Seq<u8>, j: int) -> nat {
    if j < frac.len() {
        (frac[j] - 48) as nat
    } else {
        0
    }
}

/// The first `n` fractional digits, padded with zeros, read as one number.
pub open spec fn leading_value(frac: Seq<u8>, n: nat) -> nat
    decreases n,
{
    if n == 0 {
        0
    } else {
        leading_value(frac, (n - 1) as nat) * 10 + padded_digit(frac, n - 1)
    }
}

/// Rounding to the nearest unit goes up: the first digit dropped is 5 or more.
pub open spec fn rounds_up(frac: Seq<u8>) -> bool {
    frac.len() > DECIMALS && frac[DECIMALS as int] >= 53
}

/// The amount `whole.frac` in smallest units, rounded to the nearest unit with
/// halves rounded up.
pub open spec fn units_of(whole: Seq<u8>, frac: Seq<u8>) -> nat {
    (digits_value(whole) * UNITS_PER_WHOLE + leading_value(frac, DECIMALS as nat) + if rounds_up(frac) {
        1nat
    } else {
        0nat
    }) as nat
}

/// What the amount text `b` converts to.
pub open spec fn amount_units(b: Seq<u8>) -> Result<u64, AmountError> {
    if !well_formed(b) {
        Err(AmountError::Malformed)
    } else if units_of(whole_digits(b), fraction_digits(b)) == 0 {
        Err(AmountError::NotPositive)
    } else if units_of(whole_digits(b), fraction_digits(b)) > u64::MAX {
        Err(AmountError::TooLarge)
    } else {
        Ok(units_of(whole_digits(b), fraction_digits(b)) as u64)
    }
}

proof fn lemma_digits_value_step(s: Seq<u8>, i: int)
    requires
        0 <= i < s.len(),
    ensures
        digits_value(s.take(i + 1)) == digits_value(s.take(i)) * 10 + (s[i] - 48) as nat,
{
    assert(s.take(i + 1).drop_last() =~= s.take(i));
}

proof fn lemma_point_unique(b: Seq<u8>, i: int, k: int)
    requires
        point_at(b, i),
        0 <= k < b.len(),
        b[k] == 46,
    ensures
        k == i,
{
    if k < i {
        assert(b.take(i)[k] == b[k]);
    } else if k > i {
        assert(b.skip(i + 1)[k - i - 1] == b[k]);
    }
}

/// Converts a decimal amount of whole units (`"0.5"`, `"12"`, `".25"`) into
/// smallest units, rounding to the nearest unit with halves rounded up.
pub fn parse_amount(text: &str) -> (r: Result<u64, AmountError>)
    ensures
        r == amount_units(text.spec_bytes()),
{
    let b = text.as_bytes();
    let ghost s = b@;
    let len = b.len();
    let mut point: usize = len;
    let mut i: usize = 0;
    while i < len
        invariant
            b@ == s,
            s == text.spec_bytes(),
            len == s.len(),
            0 <= i <= len,
            point == len || (point < i && s[point as int] == 46),
            forall|j: int| 0 <= j < i && j != point ==> is_digit(#[trigger] s[j]),
        decreases len - i,
    {
        if b[i] == 46 {
            if point < len {
                proof {
                    assert forall|k: int| !point_at(s, k) by {
                        if point_at(s, k) {
                            lemma_point_unique(s, k, point as int);
                            lemma_point_unique(s, k, i as int);
                        }
                    }
                    assert(!is_digit(s[i as int]));
                    assert(!has_point(s));
                    assert(!all_digits(s));
                    assert(!well_formed(s));
                }
                return Err(AmountError::Malformed);
            }
            point = i;
        } else if b[i] < 48 || b[i] > 57 {
            proof {
                assert forall|k: int| !point_at(s, k) by {
                    if point_at(s, k) && k != i {
                        if i < k {
                            assert(s.take(k)[i as int] == s[i as int]);
                        } else {
                            assert(s.skip(k + 1)[i - k - 1] == s[i as int]);
                        }
                    }
                }
                assert(!is_digit(s[i as int]));
                assert(!has_point(s));
                assert(!all_digits(s));
                assert(!well_formed(s));
            }
            return Err(AmountError::Malformed);
        }
        i = i + 1;
    }
    let ghost whole_s: Seq<u8> = s.take(point as int);
    let ghost frac_s: Seq<u8> = if point < len { s.skip(point + 1) } else { Seq::empty() };
    proof {
        if point < len {
            assert(point_at(s, point as int));
            assert(point == choose|k: int| point_at(s, k)) by {
                lemma_point_unique(s, choose|k: int| point_at(s, k), point as int);
            }
        } else {
            assert(!has_point(s));
            assert(whole_s =~= s);
        }
        assert(whole_s == whole_digits(s));
        assert(frac_s == fraction_digits(s));
    }
    if len == 0 || (point < len && len == 1) {
        return Err(AmountError::Malformed);
    }
    // The whole part; once past the limit its units cannot fit.
    let mut whole: u64 = 0;
    let mut big = false;
    let mut i: usize = 0;
    while i < point
        invariant
            b@ == s,
            s == text.spec_bytes(),
            len == s.len(),
            point <= len,
            0 <= i <= point,
            forall|k: int| 0 <= k < len && k != point ==> is_digit(#[trigger] s[k]),
            whole_s == s.take(point as int),
            all_digits(whole_s),
            !big ==> whole as nat == digits_value(s.take(i as int)) && whole <= WHOLE_LIMIT,
            big ==> digits_value(s.take(i as int)) > WHOLE_LIMIT,
        decreases point - i,
    {
        proof {
            lemma_digits_value_step(s, i as int);
            assert(whole_s[i as int] == s[i as int]);
        }
        if !big {
            let next = whole * 10 + (b[i] - 48) as u64;
            if next > WHOLE_LIMIT {
                big = true;
            } else {
                whole = next;
            }
        }
        i = i + 1;
    }
    proof {
        assert(s.take(point as int) == whole_s);
    }
    // The first nine fractional digits, padded with zeros.
    let mut frac: u64 = 0;
    let mut j: usize = 0;
    while j < DECIMALS
        invariant
            b@ == s,
            s == text.spec_bytes(),
            len == s.len(),
            point <= len,
            point < len ==> frac_s == s.skip(point + 1),
            point == len ==> frac_s.len() == 0,
            0 <= j <= DECIMALS,
            forall|k: int| 0 <= k < len && k != point ==> is_digit(#[trigger] s[k]),
            frac as nat == leading_value(frac_s, j as nat),
            frac < 1_000_000_000,
            frac < pow10_u(j as nat),
        decreases DECIMALS - j,
    {
        let d: u64 = if point < len && j < len - 1 - point {
            (b[point + 1 + j] - 48) as u64
        } else {
            0
        };
        proof {
            if point < len && j < len - 1 - point {
                assert(frac_s[j as int] == s[point + 1 + j]);
            }
            assert(d as nat == padded_digit(frac_s, j as int));
            assert(pow10_u((j + 1) as nat) == 10 * pow10_u(j as nat));
            assert(frac * 10 + d < pow10_u((j + 1) as nat)) by (nonlinear_arith)
                requires frac < pow10_u(j as nat), d <= 9;
            lemma_pow10_u_nine((j + 1) as nat);
        }
        frac = frac * 10 + d;
        j = j + 1;
    }
    let up = point < len && DECIMALS < len - 1 - point && b[point + 1 + DECIMALS] >= 53;
    proof {
        if point < len && DECIMALS < len - 1 - point {
            assert(frac_s[DECIMALS as int] == s[point + 1 + DECIMALS]);
        }
        assert(up == rounds_up(frac_s));
    }
    if big {
        assert(units_of(whole_s, frac_s) > u64::MAX) by (nonlinear_arith)
            requires digits_value(whole_s) > WHOLE_LIMIT,
                units_of(whole_s, frac_s) >= digits_value(whole_s) * UNITS_PER_WHOLE;
        return Err(AmountError::TooLarge);
    }
    let total: u128 = whole as u128 * UNITS_PER_WHOLE as u128 + frac as u128 + if up { 1u128 } else { 0u128 };
    if total == 0 {
        Err(AmountError::NotPositive)
    } else if total > u64::MAX as u128 {
        Err(AmountError::TooLarge)
    } else {
        Ok(total as u64)
    }
}

/// Ten to the power `n`.
pub open spec fn pow10_u(n: nat) -> nat
    decreases n,
{
    if n == 0 {
        1
    } else {
        10 * pow10_u((n - 1) as nat)
    }
}

proof fn lemma_pow10_u_nine(n: nat)
    requires
        n <= 9,
    ensures
        pow10_u(n) <= 1_000_000_000,
{
    reveal_with_fuel(pow10_u, 10);
    assert(n == 0 || n == 1 || n == 2 || n == 3 || n == 4 || n == 5 || n == 6 || n == 7 || n == 8 || n == 9);
}

proof fn lemma_pow10_add(a: nat, b: nat)
    ensures
        pow10_u(a + b) == pow10_u(a) * pow10_u(b),
    decreases a,
{
    if a > 0 {
        let a1 = (a - 1) as nat;
        lemma_pow10_add(a1, b);
        assert(pow10_u(a + b) == 10 * pow10_u(a1 + b));
        assert(pow10_u(a) == 10 * pow10_u(a1));
        assert(10 * (pow10_u(a1) * pow10_u(b)) == (10 * pow10_u(a1)) * pow10_u(b)) by (nonlinear_arith);
    } else {
        assert(pow10_u(0) == 1);
        assert(a + b == b);
    }
}

proof fn lemma_digits_value_bound(s: Seq<u8>)
    requires
        all_digits(s),
    ensures
        digits_value(s) < pow10_u(s.len()),
    decreases s.len(),
{
    if s.len() > 0 {
        let t = s.drop_last();
        assert(all_digits(t)) by {
            assert forall|i: int| 0 <= i < t.len() implies is_digit(#[trigger] t[i]) by {
                assert(t[i] == s[i]);
            }
        }
        lemma_digits_value_bound(t);
        assert(is_digit(s[s.len() - 1]));
        let d = (s.last() - 48) as nat;
        assert(digits_value(t) * 10 + d < 10 * pow10_u(t.len())) by (nonlinear_arith)
            requires digits_value(t) < pow10_u(t.len()), d <= 9;
    }
}

proof fn lemma_digits_value_split(s: Seq<u8>, n: int)
    requires
        0 <= n <= s.len(),
    ensures
        digits_value(s) == digits_value(s.take(n)) * pow10_u((s.len() - n) as nat) + digits_value(s.skip(n)),
    decreases s.len(),
{
    if n == s.len() {
        assert(s.take(n) =~= s);
        assert(s.skip(n) =~= Seq::<u8>::empty());
        assert(digits_value(s.skip(n)) == 0);
        assert(pow10_u(0) == 1);
        assert(digits_value(s) * 1 == digits_value(s));
    } else {
        let t = s.drop_last();
        lemma_digits_value_split(t, n);
        assert(t.take(n) =~= s.take(n));
        assert(s.skip(n).drop_last() =~= t.skip(n));
        assert(s.skip(n).last() == s.last());
        let d = (s.last() - 48) as nat;
        assert(digits_value(s) == digits_value(t) * 10 + d);
        assert(digits_value(s.skip(n)) == digits_value(t.skip(n)) * 10 + d);
        let a = digits_value(s.take(n));
        let q = pow10_u((t.len() - n) as nat);
        let b = digits_value(t.skip(n));
        assert(pow10_u((s.len() - n) as nat) == 10 * q);
        assert((a * q + b) * 10 + d == a * (10 * q) + (b * 10 + d)) by (nonlinear_arith);
    }
}

proof fn lemma_leading_value(frac: Seq<u8>, n: nat)
    ensures
        n <= frac.len() ==> leading_value(frac, n) == digits_value(frac.take(n as int)),
        n >= frac.len() ==> leading_value(frac, n) == digits_value(frac) * pow10_u((n - frac.len()) as nat),
    decreases n,
{
    assert(pow10_u(0) == 1);
    if n == 0 {
        assert(frac.take(0) =~= Seq::<u8>::empty());
        if frac.len() == 0 {
            assert(frac =~= Seq::<u8>::empty());
            assert(digits_value(frac) == 0);
        }
    } else {
        lemma_leading_value(frac, (n - 1) as nat);
        if n <= frac.len() {
            lemma_digits_value_step(frac, n - 1);
            if n == frac.len() {
                assert(frac.take(n as int) =~= frac);
                assert(digits_value(frac) * 1 == digits_value(frac));
            }
        } else {
            if n - 1 == frac.len() {
                assert(frac.take(frac.len() as int) =~= frac);
            }
            let v = digits_value(frac);
            let q = pow10_u((n - 1 - frac.len()) as nat);
            assert(pow10_u((n - frac.len()) as nat) == 10 * q);
            assert(v * q * 10 == v * (10 * q)) by (nonlinear_arith);
        }
    }
}

/// The amount `whole.frac` times ten to the number of fractional digits.
pub open spec fn scaled_amount(whole: Seq<u8>, frac: Seq<u8>) -> nat {
    digits_value(whole) * pow10_u(frac.len()) + digits_value(frac)
}

/// An amount with at most nine fractional digits converts exactly: its units are
/// the amount times the units in a whole.
pub proof fn lemma_units_exact(whole: Seq<u8>, frac: Seq<u8>)
    requires
        all_digits(whole),
        all_digits(frac),
        frac.len() <= DECIMALS,
    ensures
        units_of(whole, frac) * pow10_u(frac.len()) == scaled_amount(whole, frac) * UNITS_PER_WHOLE,
{
    lemma_leading_value(frac, DECIMALS as nat);
    let k = frac.len();
    lemma_pow10_add((DECIMALS - k) as nat, k);
    reveal_with_fuel(pow10_u, 10);
    assert(pow10_u(9) == 1_000_000_000);
    let w = digits_value(whole);
    let f = digits_value(frac);
    let a = pow10_u((DECIMALS - k) as nat);
    let b = pow10_u(k);
    assert((w * 1_000_000_000 + f * a) * b == (w * b + f) * 1_000_000_000) by (nonlinear_arith)
        requires a * b == 1_000_000_000;
}

proof fn lemma_rounding_gap(up: bool, t: int, q: int, r: int)
    requires
        0 <= t <= 9,
        up <==> t >= 5,
        q >= 1,
        0 <= r < q,
    ensures
        -10 * q <= 2 * ((if up { 10 * q } else { 0 }) - (t * q + r)) <= 10 * q,
{
    if up {
        assert(2 * (10 * q - (t * q + r)) <= 10 * q) by (nonlinear_arith)
            requires t >= 5, r >= 0, q >= 1;
        assert(-10 * q <= 2 * (10 * q - (t * q + r))) by (nonlinear_arith)
            requires t <= 9, r < q, q >= 1;
    } else {
        assert(-10 * q <= 2 * (0 - (t * q + r))) by (nonlinear_arith)
            requires t <= 4, r < q, t >= 0, r >= 0, q >= 1;
        assert(2 * (0 - (t * q + r)) <= 10 * q) by (nonlinear_arith)
            requires t >= 0, r >= 0, q >= 1;
    }
}

/// An amount with more than nine fractional digits converts to the nearest
/// unit: scaled to its last digit, the units differ from the amount by at most
/// half a unit.
pub proof fn lemma_units_nearest(whole: Seq<u8>, frac: Seq<u8>)
    requires
        all_digits(whole),
        all_digits(frac),
        frac.len() > DECIMALS,
    ensures
        ({
            let unit = pow10_u((frac.len() - DECIMALS) as nat);
            let gap = units_of(whole, frac) * unit - scaled_amount(whole, frac);
            -unit <= 2 * gap <= unit
        }),
{
    let k = frac.len();
    let e = (k - DECIMALS) as nat;
    let q = pow10_u((e - 1) as nat);
    lemma_leading_value(frac, DECIMALS as nat);
    lemma_digits_value_split(frac, DECIMALS as int);
    let rest = frac.skip(DECIMALS as int);
    lemma_digits_value_split(rest, 1);
    assert(rest.take(0) =~= Seq::<u8>::empty());
    lemma_digits_value_step(rest, 0);
    assert(rest[0] == frac[DECIMALS as int]);
    assert(is_digit(frac[DECIMALS as int]));
    let tail = rest.skip(1);
    assert(all_digits(tail)) by {
        assert forall|i: int| 0 <= i < tail.len() implies is_digit(#[trigger] tail[i]) by {
            assert(tail[i] == frac[DECIMALS + 1 + i]);
        }
    }
    lemma_digits_value_bound(tail);
    lemma_pow10_add(DECIMALS as nat, e);
    reveal_with_fuel(pow10_u, 10);
    assert(pow10_u(9) == 1_000_000_000);
    assert(pow10_u(e) == 10 * q);
    let w = digits_value(whole);
    let fh = digits_value(frac.take(DECIMALS as int));
    let t = (frac[DECIMALS as int] - 48) as int;
    let r = digits_value(tail) as int;
    let up = rounds_up(frac);
    lemma_rounding_gap(up, t, q as int, r);
    let unit = pow10_u(e);
    assert(units_of(whole, frac) == w * 1_000_000_000 + fh + (if up { 1int } else { 0int }));
    assert(digits_value(frac) == fh * unit + t * q + r);
    assert(scaled_amount(whole, frac) == w * (1_000_000_000 * unit) + digits_value(frac));
    assert((w * 1_000_000_000 + fh + (if up { 1int } else { 0int })) * unit - (w * (1_000_000_000 * unit) + (fh * unit + t * q + r))
        == (if up { 10 * q } else { 0 }) - (t * q + r)) by (nonlinear_arith)
        requires unit == 10 * q;
}

/// An amount that comes to zero units is refused before anything else happens.
pub proof fn lemma_zero_amount_refused(b: Seq<u8>)
    requires
        well_formed(b),
        units_of(whole_digits(b), fraction_digits(b)) == 0,
    ensures
        amount_units(b) == Err::<u64, AmountError>(AmountError::NotPositive),
{
}

} // verus!
