//! Exact decimal numbers.
//!
//! A numeric literal of the source language is a plain decimal: an optional
//! sign, integer digits, and optional fraction digits.  The toolchain keeps
//! such a number exactly as its digits, so unit conversion, canonical
//! emission, and the simulator plan are all exact integer computations.

use vstd::prelude::*;
use vstd::string::StrSliceExecFns;
use vstd::string::StringExecFns;

use crate::text::push_digit;
use crate::text::spec_digit_char;

verus! {

/// Ten to the power `n`.
pub open spec fn pow10(n: nat) -> int
    decreases n,
{
    if n == 0 {
        1
    } else {
        10 * pow10((n - 1) as nat)
    }
}

pub proof fn lemma_pow10_pos(n: nat)
    ensures
        pow10(n) >= 1,
    decreases n,
{
    if n > 0 {
        lemma_pow10_pos((n - 1) as nat);
    }
}

pub proof fn lemma_pow10_add(a: nat, b: nat)
    ensures
        pow10(a + b) == pow10(a) * pow10(b),
    decreases a,
{
    if a == 0 {
    } else {
        lemma_pow10_add((a - 1) as nat, b);
        assert(pow10(((a - 1) + b) as nat) == pow10((a - 1) as nat) * pow10(b));
        assert(pow10(a + b) == 10 * pow10(((a - 1) + b) as nat));
        assert(10 * (pow10((a - 1) as nat) * pow10(b)) == (10 * pow10((a - 1) as nat)) * pow10(
            b,
        )) by (nonlinear_arith);
    }
}

/// Every element is a decimal digit.
pub open spec fn digits_ok(s: Seq<u8>) -> bool {
    forall|i: int| 0 <= i < s.len() ==> #[trigger] s[i] < 10
}

/// The integer a big-endian digit sequence denotes.
pub open spec fn digits_val(s: Seq<u8>) -> int
    decreases s.len(),
{
    if s.len() == 0 {
        0
    } else {
        digits_val(s.drop_last()) * 10 + s.last()
    }
}

pub proof fn lemma_digits_val_bounds(s: Seq<u8>)
    requires
        digits_ok(s),
    ensures
        0 <= digits_val(s) < pow10(s.len()),
    decreases s.len(),
{
    if s.len() == 0 {
    } else {
        assert(digits_ok(s.drop_last()));
        lemma_digits_val_bounds(s.drop_last());
        let v: int = digits_val(s.drop_last());
        let p: int = pow10((s.len() - 1) as nat);
        assert(v <= p - 1);
        assert(v * 10 <= (p - 1) * 10) by (nonlinear_arith)
            requires
                v <= p - 1,
        ;
        assert(s.last() < 10);
        assert(pow10(s.len()) == 10 * p);
    }
}

pub proof fn lemma_digits_val_append(a: Seq<u8>, b: Seq<u8>)
    ensures
        digits_val(a + b) == digits_val(a) * pow10(b.len()) + digits_val(b),
    decreases b.len(),
{
    if b.len() == 0 {
        assert(a + b =~= a);
    } else {
        lemma_digits_val_append(a, b.drop_last());
        assert((a + b).drop_last() =~= a + b.drop_last());
        assert((a + b).last() == b.last());
        let va: int = digits_val(a);
        let p: int = pow10((b.len() - 1) as nat);
        assert(digits_val(a + b) == (va * p + digits_val(b.drop_last())) * 10 + b.last());
        assert((va * p + digits_val(b.drop_last())) * 10 == va * (10 * p) + digits_val(
            b.drop_last(),
        ) * 10) by (nonlinear_arith);
        assert(pow10(b.len()) == 10 * p);
        assert(va * (10 * p) == va * pow10(b.len()));
    }
}

/// An exact decimal number: sign, integer digits, fraction digits.
///
/// The denoted value is the integer of all digits read in order, divided by
/// ten to the number of fraction digits, negated when `neg` holds.
#[derive(Debug, Clone)]
pub struct Decimal {
    pub neg: bool,
    pub int_digits: Vec<u8>,
    pub frac_digits: Vec<u8>,
}

/// The mathematical content of a [`Decimal`].
pub struct DecimalV {
    pub neg: bool,
    pub int_digits: Seq<u8>,
    pub frac_digits: Seq<u8>,
}

impl DecimalV {
    /// Well-formed: digits are digits, and there is at least one integer digit.
    pub open spec fn wf(self) -> bool {
        &&& digits_ok(self.int_digits)
        &&& digits_ok(self.frac_digits)
        &&& self.int_digits.len() >= 1
    }

    /// All digits in order, the decimal point forgotten.
    pub open spec fn all_digits(self) -> Seq<u8> {
        self.int_digits + self.frac_digits
    }

    /// The number of fraction digits.
    pub open spec fn scale(self) -> nat {
        self.frac_digits.len()
    }

    /// The signed numerator: the value is `numer / pow10(scale)`.
    pub open spec fn numer(self) -> int {
        if self.neg {
            -digits_val(self.all_digits())
        } else {
            digits_val(self.all_digits())
        }
    }

    /// The magnitude of the value scaled by `pow10(k)` and rounded to an
    /// integer, halves away from zero.
    pub open spec fn scaled_mag(self, k: nat) -> int {
        let a: int = digits_val(self.all_digits()) * pow10(k);
        let m: int = pow10(self.scale());
        a / m + if 2 * (a % m) >= m {
            1int
        } else {
            0int
        }
    }

    /// The value scaled by `pow10(k)` and rounded to an integer, halves away
    /// from zero.
    pub open spec fn scaled_round(self, k: nat) -> int {
        if self.neg {
            -self.scaled_mag(k)
        } else {
            self.scaled_mag(k)
        }
    }
}

impl View for Decimal {
    type V = DecimalV;

    open spec fn view(&self) -> DecimalV {
        DecimalV { neg: self.neg, int_digits: self.int_digits@, frac_digits: self.frac_digits@ }
    }
}

/// A run of `n` zero digits.
pub open spec fn zero_digits(n: nat) -> Seq<u8> {
    Seq::new(n, |i: int| 0u8)
}

pub proof fn lemma_digits_val_nonneg(s: Seq<u8>)
    ensures
        digits_val(s) >= 0,
    decreases s.len(),
{
    if s.len() > 0 {
        lemma_digits_val_nonneg(s.drop_last());
    }
}

pub proof fn lemma_digits_val_zero(s: Seq<u8>)
    ensures
        (digits_val(s) == 0) <==> (forall|i: int| 0 <= i < s.len() ==> #[trigger] s[i] == 0),
    decreases s.len(),
{
    if s.len() > 0 {
        lemma_digits_val_zero(s.drop_last());
        lemma_digits_val_nonneg(s.drop_last());
        if digits_val(s) == 0 {
            assert(forall|i: int|
                0 <= i < s.len() - 1 ==> #[trigger] s[i] == s.drop_last()[i]);
        } else {
            if forall|i: int| 0 <= i < s.len() ==> #[trigger] s[i] == 0 {
                assert(forall|i: int|
                    0 <= i < s.len() - 1 ==> #[trigger] s.drop_last()[i] == s[i]);
                assert(digits_val(s.drop_last()) == 0);
                assert(s.last() == 0);
            }
        }
    }
}

impl Decimal {
    /// Whether this decimal is well-formed: digit values in range, and at
    /// least one integer digit.
    pub fn check_wf(&self) -> (r: bool)
        ensures
            r == self@.wf(),
    {
        if self.int_digits.len() == 0 {
            return false;
        }
        let mut i: usize = 0;
        while i < self.int_digits.len()
            invariant
                i <= self.int_digits@.len(),
                forall|k: int| 0 <= k < i ==> #[trigger] self.int_digits@[k] < 10,
            decreases self.int_digits@.len() - i,
        {
            if self.int_digits[i] >= 10 {
                return false;
            }
            i += 1;
        }
        let mut j: usize = 0;
        while j < self.frac_digits.len()
            invariant
                j <= self.frac_digits@.len(),
                forall|k: int| 0 <= k < j ==> #[trigger] self.frac_digits@[k] < 10,
            decreases self.frac_digits@.len() - j,
        {
            if self.frac_digits[j] >= 10 {
                return false;
            }
            j += 1;
        }
        true
    }

    /// Whether the denoted value is zero, the sign aside.
    pub fn is_value_zero(&self) -> (r: bool)
        ensures
            r == (digits_val(self@.all_digits()) == 0),
    {
        let mut i: usize = 0;
        while i < self.int_digits.len()
            invariant
                i <= self.int_digits@.len(),
                forall|k: int| 0 <= k < i ==> #[trigger] self.int_digits@[k] == 0,
            decreases self.int_digits@.len() - i,
        {
            if self.int_digits[i] != 0 {
                proof {
                    lemma_digits_val_zero(self@.all_digits());
                    assert(self@.all_digits()[i as int] == self.int_digits@[i as int]);
                }
                return false;
            }
            i += 1;
        }
        let mut j: usize = 0;
        while j < self.frac_digits.len()
            invariant
                j <= self.frac_digits@.len(),
                forall|k: int| 0 <= k < j ==> #[trigger] self.frac_digits@[k] == 0,
            decreases self.frac_digits@.len() - j,
        {
            if self.frac_digits[j] != 0 {
                proof {
                    lemma_digits_val_zero(self@.all_digits());
                    assert(self@.all_digits()[self.int_digits@.len() + j] == self.frac_digits@[
                        j as int
                    ]);
                }
                return false;
            }
            j += 1;
        }
        proof {
            lemma_digits_val_zero(self@.all_digits());
            assert(forall|k: int|
                0 <= k < self@.all_digits().len() ==> #[trigger] self@.all_digits()[k] == 0) by {
                assert(forall|k: int|
                    0 <= k < self.int_digits@.len() ==> self@.all_digits()[k]
                        == #[trigger] self.int_digits@[k]);
                assert(forall|k: int|
                    self.int_digits@.len() <= k < self@.all_digits().len()
                        ==> #[trigger] self@.all_digits()[k] == self.frac_digits@[k
                        - self.int_digits@.len()]);
            }
        }
        true
    }
}

/// The integer a little-endian digit sequence denotes.
pub open spec fn digits_val_le(s: Seq<u8>) -> int
    decreases s.len(),
{
    if s.len() == 0 {
        0
    } else {
        s[0] + 10 * digits_val_le(s.drop_first())
    }
}

pub proof fn lemma_val_le_snoc(s: Seq<u8>, d: u8)
    ensures
        digits_val_le(s.push(d)) == digits_val_le(s) + d * pow10(s.len()),
    decreases s.len(),
{
    if s.len() == 0 {
        assert(s.push(d).drop_first() =~= Seq::<u8>::empty());
        assert(digits_val_le(Seq::<u8>::empty()) == 0);
        assert(s.push(d)[0] == d);
        assert(digits_val_le(s.push(d)) == d + 10 * digits_val_le(s.push(d).drop_first()));
        assert(digits_val_le(s) == 0);
        assert(pow10(s.len()) == 1);
    } else {
        assert(s.push(d).drop_first() =~= s.drop_first().push(d));
        lemma_val_le_snoc(s.drop_first(), d);
        assert(pow10(s.len()) == 10 * pow10((s.len() - 1) as nat));
        assert(10 * (digits_val_le(s.drop_first()) + d * pow10((s.len() - 1) as nat)) == 10
            * digits_val_le(s.drop_first()) + d * (10 * pow10((s.len() - 1) as nat)))
            by (nonlinear_arith);
    }
}

pub proof fn lemma_val_le_bounds(s: Seq<u8>)
    requires
        digits_ok(s),
    ensures
        0 <= digits_val_le(s) < pow10(s.len()),
    decreases s.len(),
{
    if s.len() == 0 {
    } else {
        assert(s =~= s.drop_last().push(s.last()));
        assert(digits_ok(s.drop_last()));
        lemma_val_le_snoc(s.drop_last(), s.last());
        lemma_val_le_bounds(s.drop_last());
        lemma_pow10_pos((s.len() - 1) as nat);
        let p: int = pow10((s.len() - 1) as nat);
        assert(s.last() * p <= 9 * p) by (nonlinear_arith)
            requires
                s.last() <= 9,
                p >= 1,
        ;
        assert(pow10(s.len()) == 10 * p);
    }
}

pub proof fn lemma_val_le_zero(s: Seq<u8>)
    ensures
        (digits_val_le(s) == 0) <==> (forall|i: int| 0 <= i < s.len() ==> #[trigger] s[i] == 0),
    decreases s.len(),
{
    if s.len() > 0 {
        lemma_val_le_zero(s.drop_first());
        lemma_val_le_nonneg(s.drop_first());
        if digits_val_le(s) == 0 {
            assert(forall|i: int|
                1 <= i < s.len() ==> #[trigger] s[i] == s.drop_first()[i - 1]);
        } else {
            if forall|i: int| 0 <= i < s.len() ==> #[trigger] s[i] == 0 {
                assert(forall|i: int|
                    0 <= i < s.len() - 1 ==> #[trigger] s.drop_first()[i] == s[i + 1]);
                assert(digits_val_le(s.drop_first()) == 0);
                assert(s[0] == 0);
            }
        }
    }
}

pub proof fn lemma_val_le_nonneg(s: Seq<u8>)
    ensures
        digits_val_le(s) >= 0,
    decreases s.len(),
{
    if s.len() > 0 {
        lemma_val_le_nonneg(s.drop_first());
    }
}

/// A value is unchanged by zeros above index `h`.
pub proof fn lemma_val_le_high_zeros(s: Seq<u8>, h: int)
    requires
        0 <= h <= s.len(),
        forall|i: int| h <= i < s.len() ==> #[trigger] s[i] == 0,
    ensures
        digits_val_le(s) == digits_val_le(s.take(h)),
    decreases s.len() - h,
{
    if h < s.len() {
        assert(s.take(s.len() as int) =~= s);
        assert(s.take(s.len() - 1).push(s.last()) =~= s);
        lemma_val_le_snoc(s.take(s.len() - 1), s.last());
        assert(s.last() == 0);
        assert(s.take(s.len() - 1).take(h) =~= s.take(h));
        lemma_val_le_high_zeros(s.take(s.len() - 1), h);
    } else {
        assert(s.take(h) =~= s);
    }
}

/// Low zeros scale a little-endian value by a power of ten.
pub proof fn lemma_val_le_shift(k: nat, s: Seq<u8>)
    ensures
        digits_val_le(zero_digits(k) + s) == pow10(k) * digits_val_le(s),
    decreases k,
{
    if k == 0 {
        assert(zero_digits(0) + s =~= s);
    } else {
        lemma_val_le_shift((k - 1) as nat, s);
        let w: Seq<u8> = zero_digits(k) + s;
        assert(w[0] == 0);
        assert(w.drop_first() =~= zero_digits((k - 1) as nat) + s);
        assert(digits_val_le(w) == 0 + 10 * digits_val_le(w.drop_first()));
        assert(10 * (pow10((k - 1) as nat) * digits_val_le(s)) == (10 * pow10((k - 1) as nat))
            * digits_val_le(s)) by (nonlinear_arith);
    }
}

/// The big-endian and little-endian readings agree through reversal.
pub proof fn lemma_val_le_reverse(s: Seq<u8>)
    ensures
        digits_val(s) == digits_val_le(s.reverse()),
    decreases s.len(),
{
    if s.len() > 0 {
        lemma_val_le_reverse(s.drop_last());
        assert(s.reverse()[0] == s.last());
        assert(s.reverse().drop_first() =~= s.drop_last().reverse());
    }
}

/// Reverses a digit vector.
pub fn reverse_digits(v: &Vec<u8>) -> (r: Vec<u8>)
    ensures
        r@ == v@.reverse(),
{
    let n: usize = v.len();
    let mut r: Vec<u8> = Vec::new();
    let mut i: usize = 0;
    while i < n
        invariant
            n == v@.len(),
            i <= n,
            r@.len() == i,
            forall|k: int| 0 <= k < i ==> #[trigger] r@[k] == v@[n - 1 - k],
        decreases n - i,
    {
        r.push(v[n - 1 - i]);
        i += 1;
    }
    proof {
        assert(r@ =~= v@.reverse());
    }
    r
}

/// Pads a little-endian digit vector with high zeros up to length `n`.
pub fn pad_le(v: &mut Vec<u8>, n: usize)
    ensures
        final(v)@.len() == if old(v)@.len() >= n {
            old(v)@.len() as int
        } else {
            n as int
        },
        digits_val_le(final(v)@) == digits_val_le(old(v)@),
        digits_ok(old(v)@) ==> digits_ok(final(v)@),
    decreases n,
{
    while v.len() < n
        invariant
            digits_val_le(v@) == digits_val_le(old(v)@),
            digits_ok(old(v)@) ==> digits_ok(v@),
            old(v)@.len() <= v@.len(),
            v@.len() <= if old(v)@.len() >= n {
                old(v)@.len() as int
            } else {
                n as int
            },
        decreases n - v@.len(),
    {
        let ghost pre: Seq<u8> = v@;
        v.push(0);
        proof {
            lemma_val_le_snoc(pre, 0);
        }
    }
}

/// Adds two little-endian digit vectors of equal length.
pub fn add_le(a: &Vec<u8>, b: &Vec<u8>) -> (r: Vec<u8>)
    requires
        a@.len() == b@.len(),
        digits_ok(a@),
        digits_ok(b@),
    ensures
        digits_ok(r@),
        digits_val_le(r@) == digits_val_le(a@) + digits_val_le(b@),
{
    let n: usize = a.len();
    let mut out: Vec<u8> = Vec::new();
    let mut carry: u8 = 0;
    let mut i: usize = 0;
    while i < n
        invariant
            n == a@.len(),
            n == b@.len(),
            digits_ok(a@),
            digits_ok(b@),
            i <= n,
            out@.len() == i,
            carry <= 1,
            digits_ok(out@),
            digits_val_le(out@) + carry * pow10(i as nat) == digits_val_le(a@.take(i as int))
                + digits_val_le(b@.take(i as int)),
        decreases n - i,
    {
        let ghost pre: Seq<u8> = out@;
        let t: u8 = a[i] + b[i] + carry;
        let d: u8 = t % 10;
        out.push(d);
        let newcarry: u8 = t / 10;
        proof {
            lemma_val_le_snoc(pre, d);
            assert(a@.take(i + 1) =~= a@.take(i as int).push(a@[i as int]));
            assert(b@.take(i + 1) =~= b@.take(i as int).push(b@[i as int]));
            lemma_val_le_snoc(a@.take(i as int), a@[i as int]);
            lemma_val_le_snoc(b@.take(i as int), b@[i as int]);
            assert(t == d + 10 * newcarry);
            assert(newcarry <= 1);
            lemma_pow10_pos(i as nat);
            assert(pow10((i + 1) as nat) == 10 * pow10(i as nat));
            assert(digits_val_le(out@) + newcarry * pow10((i + 1) as nat) == digits_val_le(a@.take(i + 1))
                + digits_val_le(b@.take(i + 1))) by (nonlinear_arith)
                requires
                    digits_val_le(out@) == digits_val_le(pre) + d * pow10(i as nat),
                    digits_val_le(a@.take(i + 1)) == digits_val_le(a@.take(i as int)) + a@[
                        i as int
                    ] * pow10(i as nat),
                    digits_val_le(b@.take(i + 1)) == digits_val_le(b@.take(i as int)) + b@[
                        i as int
                    ] * pow10(i as nat),
                    digits_val_le(pre) + carry * pow10(i as nat) == digits_val_le(
                        a@.take(i as int),
                    ) + digits_val_le(b@.take(i as int)),
                    t == a@[i as int] + b@[i as int] + carry,
                    t == d + 10 * newcarry,
                    pow10((i + 1) as nat) == 10 * pow10(i as nat),
            ;
        }
        carry = newcarry;
        i += 1;
    }
    if carry > 0 {
        let ghost pre: Seq<u8> = out@;
        out.push(carry);
        proof {
            lemma_val_le_snoc(pre, carry);
            assert(a@.take(n as int) =~= a@);
            assert(b@.take(n as int) =~= b@);
        }
    } else {
        proof {
            assert(a@.take(n as int) =~= a@);
            assert(b@.take(n as int) =~= b@);
        }
    }
    out
}

/// Multiplies a little-endian digit vector by a machine word.
pub fn mul_le(a: &Vec<u8>, m: u64) -> (r: Vec<u8>)
    requires
        digits_ok(a@),
    ensures
        digits_ok(r@),
        digits_val_le(r@) == digits_val_le(a@) * m,
{
    let n: usize = a.len();
    let mut out: Vec<u8> = Vec::new();
    let mut carry: u128 = 0;
    let mut i: usize = 0;
    while i < n
        invariant
            n == a@.len(),
            digits_ok(a@),
            i <= n,
            out@.len() == i,
            carry <= m,
            digits_ok(out@),
            digits_val_le(out@) + carry * pow10(i as nat) == digits_val_le(a@.take(i as int))
                * m,
        decreases n - i,
    {
        let ghost pre: Seq<u8> = out@;
        proof {
            assert((a@[i as int] as int) * (m as int) <= 9 * (u64::MAX as int))
                by (nonlinear_arith)
                requires
                    a@[i as int] <= 9,
                    m <= u64::MAX,
            ;
        }
        let t: u128 = (a[i] as u128) * (m as u128) + carry;
        let d: u8 = #[verifier::truncate] ((t % 10) as u8);
        out.push(d);
        let newcarry: u128 = t / 10;
        proof {
            vstd::arithmetic::div_mod::lemma_fundamental_div_mod(t as int, 10);
            lemma_val_le_snoc(pre, d);
            assert(a@.take(i + 1) =~= a@.take(i as int).push(a@[i as int]));
            lemma_val_le_snoc(a@.take(i as int), a@[i as int]);
            lemma_pow10_pos(i as nat);
            assert(pow10((i + 1) as nat) == 10 * pow10(i as nat));
            assert(newcarry <= m) by (nonlinear_arith)
                requires
                    t == a@[i as int] * m + carry,
                    a@[i as int] <= 9,
                    carry <= m,
                    newcarry == t / 10,
                    t == 10 * newcarry + t % 10,
                    0 <= t % 10 < 10,
            ;
            assert(digits_val_le(out@) + newcarry * pow10((i + 1) as nat) == digits_val_le(a@.take(i + 1))
                * m) by (nonlinear_arith)
                requires
                    digits_val_le(out@) == digits_val_le(pre) + d * pow10(i as nat),
                    digits_val_le(a@.take(i + 1)) == digits_val_le(a@.take(i as int)) + a@[
                        i as int
                    ] * pow10(i as nat),
                    digits_val_le(pre) + carry * pow10(i as nat) == digits_val_le(
                        a@.take(i as int),
                    ) * m,
                    t == a@[i as int] * m + carry,
                    t == 10 * newcarry + d,
                    0 <= d < 10,
                    pow10((i + 1) as nat) == 10 * pow10(i as nat),
            ;
        }
        carry = newcarry;
        i += 1;
    }
    proof {
        assert(a@.take(n as int) =~= a@);
    }
    while carry > 0
        invariant
            digits_ok(out@),
            digits_val_le(out@) + carry * pow10(out@.len()) == digits_val_le(a@) * m,
        decreases carry,
    {
        let ghost pre: Seq<u8> = out@;
        let d: u8 = #[verifier::truncate] ((carry % 10) as u8);
        out.push(d);
        let newcarry: u128 = carry / 10;
        proof {
            vstd::arithmetic::div_mod::lemma_fundamental_div_mod(carry as int, 10);
            lemma_val_le_snoc(pre, d);
            lemma_pow10_pos(pre.len());
            assert(pow10((pre.len() + 1) as nat) == 10 * pow10(pre.len()));
            assert(digits_val_le(out@) + newcarry * pow10(out@.len()) == digits_val_le(a@) * m)
                by (nonlinear_arith)
                requires
                    digits_val_le(out@) == digits_val_le(pre) + d * pow10(pre.len()),
                    out@.len() == pre.len() + 1,
                    digits_val_le(pre) + carry * pow10(pre.len()) == digits_val_le(a@) * m,
                    carry == 10 * newcarry + d,
                    pow10((pre.len() + 1) as nat) == 10 * pow10(pre.len()),
            ;
        }
        carry = newcarry;
    }
    out
}

/// Whether a little-endian digit vector denotes more than ten to the `p`.
pub fn le_exceeds_pow10(v: &Vec<u8>, p: usize) -> (r: bool)
    requires
        digits_ok(v@),
    ensures
        r == (digits_val_le(v@) > pow10(p as nat)),
{
    // the highest nonzero digit decides
    let n: usize = v.len();
    let mut h: usize = n;
    while h > 0 && v[h - 1] == 0
        invariant
            h <= n,
            n == v@.len(),
            forall|k: int| h <= k < n ==> #[trigger] v@[k] == 0,
        decreases h,
    {
        h -= 1;
    }
    proof {
        lemma_val_le_high_zeros(v@, h as int);
        assert(digits_ok(v@.take(h as int)));
        lemma_val_le_bounds(v@.take(h as int));
        lemma_pow10_pos(p as nat);
    }
    if h == 0 {
        // the value is zero
        return false;
    }
    let ghost hv: Seq<u8> = v@.take(h as int);
    proof {
        assert(hv.take(h - 1) =~= v@.take(h - 1));
        assert(hv =~= v@.take(h - 1).push(v@[h - 1]));
        lemma_val_le_snoc(v@.take(h - 1), v@[h - 1]);
        assert(digits_ok(v@.take(h - 1)));
        lemma_val_le_bounds(v@.take(h - 1));
        lemma_pow10_pos((h - 1) as nat);
    }
    if h - 1 > p {
        proof {
            lemma_pow10_add(p as nat, (h - 1 - p) as nat);
            lemma_pow10_pos((h - 1 - p) as nat);
            assert(pow10((h - 1) as nat) >= 10 * pow10(p as nat)) by (nonlinear_arith)
                requires
                    pow10((h - 1) as nat) == pow10(p as nat) * pow10((h - 1 - p) as nat),
                    pow10((h - 1 - p) as nat) >= 10,
                    pow10(p as nat) >= 1,
            ;
            assert(v@[h - 1] * pow10((h - 1) as nat) >= pow10((h - 1) as nat))
                by (nonlinear_arith)
                requires
                    v@[h - 1] >= 1,
                    pow10((h - 1) as nat) >= 1,
            ;
        }
        true
    } else if h - 1 < p {
        proof {
            if (h as int) <= p {
                lemma_pow10_add((h) as nat, (p - h) as nat);
                lemma_pow10_pos((p - h) as nat);
                assert(pow10(p as nat) >= pow10(h as nat)) by (nonlinear_arith)
                    requires
                        pow10(p as nat) == pow10(h as nat) * pow10((p - h) as nat),
                        pow10((p - h) as nat) >= 1,
                        pow10(h as nat) >= 1,
                ;
            }
        }
        false
    } else {
        // the top digit sits exactly at ten to the p
        if v[h - 1] >= 2 {
            proof {
                assert(v@[h - 1] * pow10(p as nat) >= 2 * pow10(p as nat)) by (nonlinear_arith)
                    requires
                        v@[h - 1] >= 2,
                        pow10(p as nat) >= 1,
                ;
            }
            true
        } else {
            // the top digit is one: any lower nonzero digit tips the scale
            proof {
                assert(v@[h - 1] == 1);
                lemma_val_le_zero(v@.take(h - 1));
            }
            let mut k: usize = 0;
            let mut nonzero: bool = false;
            while k < h - 1
                invariant
                    h >= 1,
                    h <= n,
                    n == v@.len(),
                    k <= h - 1,
                    nonzero == exists|j: int| 0 <= j < k && (#[trigger] v@.take(h - 1)[j]) != 0,
                decreases h - 1 - k,
            {
                if v[k] != 0 {
                    proof {
                        assert(v@.take(h - 1)[k as int] != 0);
                    }
                    nonzero = true;
                }
                k += 1;
            }
            proof {
                lemma_val_le_zero(v@.take(h - 1));
                lemma_val_le_nonneg(v@.take(h - 1));
                if nonzero {
                    assert(digits_val_le(v@.take(h - 1)) != 0);
                } else {
                    assert(forall|j: int| 0 <= j < h - 1 ==> #[trigger] v@.take(h - 1)[j] == 0);
                }
            }
            nonzero
        }
    }
}

/// The numeric value of a digit character, or `-1` when `c` is no digit.
pub open spec fn spec_char_digit(c: char) -> int {
    if c == '0' {
        0
    } else if c == '1' {
        1
    } else if c == '2' {
        2
    } else if c == '3' {
        3
    } else if c == '4' {
        4
    } else if c == '5' {
        5
    } else if c == '6' {
        6
    } else if c == '7' {
        7
    } else if c == '8' {
        8
    } else if c == '9' {
        9
    } else {
        -1
    }
}

/// The numeric value of a digit character.
pub fn char_digit(c: char) -> (r: Option<u8>)
    ensures
        r is Some <==> spec_char_digit(c) >= 0,
        r is Some ==> r->0 == spec_char_digit(c) && r->0 < 10,
{
    match c {
        '0' => Some(0),
        '1' => Some(1),
        '2' => Some(2),
        '3' => Some(3),
        '4' => Some(4),
        '5' => Some(5),
        '6' => Some(6),
        '7' => Some(7),
        '8' => Some(8),
        '9' => Some(9),
        _ => None,
    }
}

/// The first index at or after `i` whose character is no digit, or the length.
pub open spec fn digits_end(s: Seq<char>, i: int) -> int
    decreases s.len() - i,
{
    if i < s.len() && spec_char_digit(s[i]) >= 0 {
        digits_end(s, i + 1)
    } else {
        i
    }
}

pub proof fn lemma_digits_end_at(s: Seq<char>, i: int, j: int)
    requires
        0 <= i <= j <= s.len(),
        forall|k: int| i <= k < j ==> spec_char_digit(#[trigger] s[k]) >= 0,
        j == s.len() || spec_char_digit(s[j]) < 0,
    ensures
        digits_end(s, i) == j,
    decreases j - i,
{
    if i < j {
        lemma_digits_end_at(s, i + 1, j);
    }
}

pub proof fn lemma_digits_end_range(s: Seq<char>, i: int)
    requires
        0 <= i <= s.len(),
    ensures
        forall|k: int| i <= k < digits_end(s, i) ==> spec_char_digit(#[trigger] s[k]) >= 0,
    decreases s.len() - i,
{
    if i < s.len() && spec_char_digit(s[i]) >= 0 {
        lemma_digits_end_range(s, i + 1);
    }
}

/// The digit values of the characters of `s` in `[from, to)`.
pub open spec fn chars_digits(s: Seq<char>, from: int, to: int) -> Seq<u8> {
    Seq::new((to - from) as nat, |i: int| spec_char_digit(s[from + i]) as u8)
}

/// What parsing a numeric literal yields: an optional sign, one or more
/// integer digits, then optionally a point and fraction digits.
pub open spec fn spec_parse_decimal(s: Seq<char>) -> Option<DecimalV> {
    let start: int = if s.len() > 0 && s[0] == '-' {
        1int
    } else {
        0int
    };
    let neg: bool = start == 1;
    let j: int = digits_end(s, start);
    if j == start {
        None
    } else {
        let int_digits: Seq<u8> = chars_digits(s, start, j);
        if j == s.len() {
            Some(DecimalV { neg, int_digits, frac_digits: Seq::empty() })
        } else if s[j] == '.' {
            let k: int = digits_end(s, j + 1);
            if k == s.len() {
                Some(DecimalV { neg, int_digits, frac_digits: chars_digits(s, j + 1, k) })
            } else {
                None
            }
        } else {
            None
        }
    }
}

/// Collects the digit characters of `text` from `i` on, stopping at the first
/// character that is no digit.
fn scan_digits(text: &str, i: usize) -> (r: (Vec<u8>, usize))
    requires
        i <= text@.len(),
    ensures
        i <= r.1 <= text@.len(),
        r.1 == digits_end(text@, i as int),
        r.0@ == chars_digits(text@, i as int, r.1 as int),
        digits_ok(r.0@),
{
    let n: usize = text.unicode_len();
    let mut acc: Vec<u8> = Vec::new();
    let mut j: usize = i;
    let mut done: bool = false;
    while !done && j < n
        invariant
            i <= j <= n,
            n == text@.len(),
            forall|k: int| i <= k < j ==> spec_char_digit(#[trigger] text@[k]) >= 0,
            acc@ == chars_digits(text@, i as int, j as int),
            digits_ok(acc@),
            done ==> j < n && spec_char_digit(text@[j as int]) < 0,
        decreases n - j, 1int - if done {
            1int
        } else {
            0int
        },
    {
        match char_digit(text.get_char(j)) {
            Some(d) => {
                acc.push(d);
                proof {
                    assert(acc@ =~= chars_digits(text@, i as int, j + 1));
                }
                j += 1;
            },
            None => {
                done = true;
            },
        }
    }
    proof {
        lemma_digits_end_at(text@, i as int, j as int);
    }
    (acc, j)
}

/// Parses a numeric literal into an exact decimal.
pub fn parse_decimal(text: &str) -> (r: Option<Decimal>)
    ensures
        match r {
            Some(d) => spec_parse_decimal(text@) == Some(d@) && d.wf(),
            None => spec_parse_decimal(text@) is None,
        },
{
    let n: usize = text.unicode_len();
    let neg: bool = n > 0 && text.get_char(0) == '-';
    let start: usize = if neg {
        1
    } else {
        0
    };
    let (int_digits, j): (Vec<u8>, usize) = scan_digits(text, start);
    if j == start {
        return None;
    }
    if j == n {
        return Some(Decimal { neg, int_digits, frac_digits: Vec::new() });
    }
    if text.get_char(j) != '.' {
        return None;
    }
    let (frac_digits, k): (Vec<u8>, usize) = scan_digits(text, j + 1);
    if k != n {
        return None;
    }
    Some(Decimal { neg, int_digits, frac_digits })
}

/// The start of the integer digits once redundant leading zeros are dropped;
/// a single zero digit is kept.
pub open spec fn int_start(s: Seq<u8>, i: int) -> int
    decreases s.len() - i,
{
    if i < s.len() - 1 && s[i] == 0 {
        int_start(s, i + 1)
    } else {
        i
    }
}

pub proof fn lemma_int_start_at(s: Seq<u8>, i: int, j: int)
    requires
        0 <= i <= j < s.len(),
        forall|k: int| i <= k < j ==> #[trigger] s[k] == 0,
        j == s.len() - 1 || s[j] != 0,
    ensures
        int_start(s, i) == j,
    decreases j - i,
{
    if i < j {
        lemma_int_start_at(s, i + 1, j);
    }
}

/// The length of the fraction once trailing zeros are dropped.
pub open spec fn frac_keep(s: Seq<u8>) -> int
    decreases s.len(),
{
    if s.len() > 0 && s.last() == 0 {
        frac_keep(s.drop_last())
    } else {
        s.len() as int
    }
}

pub proof fn lemma_frac_keep_at(s: Seq<u8>, j: int)
    requires
        0 <= j <= s.len(),
        forall|k: int| j <= k < s.len() ==> #[trigger] s[k] == 0,
        j == 0 || s[j - 1] != 0,
    ensures
        frac_keep(s) == j,
    decreases s.len(),
{
    if s.len() > j {
        assert(s.last() == 0);
        lemma_frac_keep_at(s.drop_last(), j);
    } else {
        assert(s.len() == j);
    }
}

/// The digit characters of a digit sequence.
pub open spec fn digit_chars(s: Seq<u8>) -> Seq<char> {
    Seq::new(s.len(), |i: int| spec_digit_char(s[i] as nat))
}

/// The canonical rendering of a decimal: the sign, the integer digits without
/// redundant leading zeros, and the fraction digits without trailing zeros,
/// the point omitted when no fraction digit remains.
pub open spec fn canon_chars(v: DecimalV) -> Seq<char> {
    let sign: Seq<char> = if v.neg {
        seq!['-']
    } else {
        Seq::empty()
    };
    let ints: Seq<char> = digit_chars(
        v.int_digits.subrange(int_start(v.int_digits, 0), v.int_digits.len() as int),
    );
    let fk: int = frac_keep(v.frac_digits);
    if fk > 0 {
        sign + ints + seq!['.'] + digit_chars(v.frac_digits.subrange(0, fk))
    } else {
        sign + ints
    }
}

/// Appends the digit characters of `v[from..to]`.
fn push_digits(out: &mut String, v: &Vec<u8>, from: usize, to: usize)
    requires
        from <= to <= v@.len(),
    ensures
        final(out)@ == old(out)@ + digit_chars(v@.subrange(from as int, to as int)),
{
    let mut i: usize = from;
    while i < to
        invariant
            from <= i <= to <= v@.len(),
            out@ == old(out)@ + digit_chars(v@.subrange(from as int, i as int)),
        decreases to - i,
    {
        push_digit(out, v[i] as u64);
        proof {
            assert(out@ =~= old(out)@ + digit_chars(v@.subrange(from as int, i + 1)));
        }
        i += 1;
    }
    proof {
        assert(final(out)@ =~= old(out)@ + digit_chars(v@.subrange(from as int, to as int)));
    }
}

/// The scaled magnitude, computed on the digits: when the fraction is no
/// longer than the shift the digits are taken whole and padded, otherwise
/// they are cut after the shifted point and the first dropped digit decides
/// the rounding.
pub proof fn lemma_scaled_mag_cut(v: DecimalV, k: nat)
    requires
        v.wf(),
    ensures
        v.frac_digits.len() <= k ==> v.scaled_mag(k) == digits_val(v.all_digits()) * pow10(
            (k - v.frac_digits.len()) as nat,
        ),
        v.frac_digits.len() > k ==> v.scaled_mag(k) == digits_val(
            v.all_digits().subrange(0, v.int_digits.len() + k as int),
        ) + if v.all_digits()[v.int_digits.len() + k as int] >= 5 {
            1int
        } else {
            0int
        },
{
    let all: Seq<u8> = v.all_digits();
    let fl: nat = v.frac_digits.len();
    let a: int = digits_val(all) * pow10(k);
    let m: int = pow10(fl);
    lemma_pow10_pos(fl);
    lemma_pow10_pos(k);
    assert(digits_ok(all));
    lemma_digits_val_bounds(all);
    if fl <= k {
        let q: int = digits_val(all) * pow10((k - fl) as nat);
        lemma_pow10_add((k - fl) as nat, fl);
        assert(pow10(k) == pow10((k - fl) as nat) * m);
        assert(digits_val(all) * (pow10((k - fl) as nat) * m) == (digits_val(all) * pow10(
            (k - fl) as nat,
        )) * m) by (nonlinear_arith);
        vstd::arithmetic::div_mod::lemma_fundamental_div_mod_converse(a, m, q, 0);
    } else {
        let c: int = v.int_digits.len() + k as int;
        let p: Seq<u8> = all.subrange(0, c);
        let r_digits: Seq<u8> = all.subrange(c, all.len() as int);
        assert(all =~= p + r_digits);
        lemma_digits_val_append(p, r_digits);
        assert(digits_ok(p));
        assert(digits_ok(r_digits));
        lemma_digits_val_bounds(p);
        lemma_digits_val_bounds(r_digits);
        let rl: nat = (fl - k) as nat;
        assert(r_digits.len() == rl);
        let q: int = digits_val(p);
        let rv: int = digits_val(r_digits);
        // a == q * m + rv * pow10(k)
        lemma_pow10_add(rl, k);
        assert(m == pow10(rl) * pow10(k));
        assert((q * pow10(rl) + rv) * pow10(k) == q * (pow10(rl) * pow10(k)) + rv * pow10(k))
            by (nonlinear_arith);
        assert(a == q * m + rv * pow10(k));
        assert(rv <= pow10(rl) - 1);
        assert(rv * pow10(k) <= (pow10(rl) - 1) * pow10(k)) by (nonlinear_arith)
            requires
                rv <= pow10(rl) - 1,
                pow10(k) >= 1,
        ;
        assert((pow10(rl) - 1) * pow10(k) == m - pow10(k)) by (nonlinear_arith)
            requires
                m == pow10(rl) * pow10(k),
        ;
        assert(0 <= rv * pow10(k)) by (nonlinear_arith)
            requires
                rv >= 0,
                pow10(k) >= 1,
        ;
        vstd::arithmetic::div_mod::lemma_fundamental_div_mod_converse(a, m, q, rv * pow10(k));
        // the rounding condition is decided by the first dropped digit
        let d0: int = r_digits[0] as int;
        let rest: Seq<u8> = r_digits.subrange(1, rl as int);
        assert(r_digits =~= seq![r_digits[0]] + rest);
        lemma_digits_val_append(seq![r_digits[0]], rest);
        assert(digits_val(seq![r_digits[0]]) == d0) by {
            let s1: Seq<u8> = seq![r_digits[0]];
            assert(s1.drop_last() =~= Seq::<u8>::empty());
            assert(digits_val(Seq::<u8>::empty()) == 0);
            assert(s1.last() == r_digits[0]);
            assert(digits_val(s1) == digits_val(s1.drop_last()) * 10 + s1.last());
        }
        assert(digits_ok(rest));
        lemma_digits_val_bounds(rest);
        let pr: int = pow10((rl - 1) as nat);
        lemma_pow10_pos((rl - 1) as nat);
        assert(rv == d0 * pr + digits_val(rest));
        assert(pow10(rl) == 10 * pr);
        if d0 >= 5 {
            assert(2 * rv >= pow10(rl)) by (nonlinear_arith)
                requires
                    rv == d0 * pr + digits_val(rest),
                    d0 >= 5,
                    digits_val(rest) >= 0,
                    pr >= 1,
                    pow10(rl) == 10 * pr,
            ;
        } else {
            assert(2 * rv < pow10(rl)) by (nonlinear_arith)
                requires
                    rv == d0 * pr + digits_val(rest),
                    d0 <= 4,
                    digits_val(rest) < pr,
                    pr >= 1,
                    pow10(rl) == 10 * pr,
            ;
        }
        // lift the condition through the common factor pow10(k)
        assert(2 * (rv * pow10(k)) >= m <==> 2 * rv >= pow10(rl)) by (nonlinear_arith)
            requires
                m == pow10(rl) * pow10(k),
                pow10(k) >= 1,
        ;
    }
}

pub proof fn lemma_digits_val_prefix(s: Seq<u8>, c: int)
    requires
        digits_ok(s),
        0 <= c <= s.len(),
    ensures
        digits_val(s) >= digits_val(s.subrange(0, c)),
{
    let p: Seq<u8> = s.subrange(0, c);
    let rest: Seq<u8> = s.subrange(c, s.len() as int);
    assert(s =~= p + rest);
    lemma_digits_val_append(p, rest);
    assert(digits_ok(p));
    assert(digits_ok(rest));
    lemma_digits_val_bounds(p);
    lemma_digits_val_bounds(rest);
    lemma_pow10_pos(rest.len());
    assert(digits_val(p) * pow10(rest.len()) >= digits_val(p)) by (nonlinear_arith)
        requires
            digits_val(p) >= 0,
            pow10(rest.len()) >= 1,
    ;
}

/// Once a prefix of the kept digits exceeds `i64::MAX`, so does the whole
/// scaled magnitude.
proof fn lemma_mag_overflow(v: DecimalV, k: nat, c: int)
    requires
        v.wf(),
        0 <= c,
        v.frac_digits.len() > k ==> c <= v.int_digits.len() + k,
        v.frac_digits.len() <= k ==> c <= v.all_digits().len(),
        digits_val(v.all_digits().subrange(0, c)) > i64::MAX,
    ensures
        v.scaled_mag(k) > i64::MAX,
{
    let all: Seq<u8> = v.all_digits();
    let fl: nat = v.frac_digits.len();
    lemma_scaled_mag_cut(v, k);
    assert(digits_ok(all));
    if fl <= k {
        lemma_digits_val_prefix(all, c);
        lemma_pow10_pos((k - fl) as nat);
        assert(digits_val(all) * pow10((k - fl) as nat) >= digits_val(all)) by (nonlinear_arith)
            requires
                digits_val(all) >= 0,
                pow10((k - fl) as nat) >= 1,
        ;
        lemma_digits_val_bounds(all);
    } else {
        let cut: Seq<u8> = all.subrange(0, v.int_digits.len() + k as int);
        assert(digits_ok(cut));
        assert(cut.subrange(0, c) =~= all.subrange(0, c));
        lemma_digits_val_prefix(cut, c);
    }
}

/// Appends one digit to a running magnitude, refusing to pass `i64::MAX`.
fn acc_step(acc: u128, d: u8) -> (r: Option<u128>)
    requires
        acc <= i64::MAX,
        d < 10,
    ensures
        match r {
            Some(a) => a == acc * 10 + d && a <= i64::MAX,
            None => acc * 10 + d > i64::MAX,
        },
{
    let limit: u128 = 0x7fff_ffff_ffff_ffffu128;
    proof {
        vstd::arithmetic::div_mod::lemma_fundamental_div_mod((limit - d) as int, 10);
    }
    if acc > (limit - d as u128) / 10 {
        None
    } else {
        Some(acc * 10 + d as u128)
    }
}

/// Applies the sign to a computed magnitude.
fn finish_signed(d: &Decimal, acc: u128, mag: Ghost<int>) -> (r: Option<i64>)
    requires
        acc <= i64::MAX,
        acc == mag@,
    ensures
        r is Some,
        r->0 as int == if d.neg {
            -mag@
        } else {
            mag@
        },
{
    let v: i64 = #[verifier::truncate] (acc as i64);
    if d.neg {
        Some(-v)
    } else {
        Some(v)
    }
}

impl Decimal {
    /// Well-formed decimal.
    pub open spec fn wf(self) -> bool {
        self@.wf()
    }

    /// The value scaled by ten to the `k` and rounded to the nearest integer,
    /// halves away from zero; `None` when the magnitude exceeds `i64::MAX`.
    pub fn to_scaled_i64(&self, k: usize) -> (r: Option<i64>)
        requires
            self.wf(),
            k <= 9,
        ensures
            match r {
                Some(n) => n == self@.scaled_round(k as nat) && self@.scaled_mag(k as nat)
                    <= i64::MAX,
                None => self@.scaled_mag(k as nat) > i64::MAX,
            },
    {
        proof {
            lemma_scaled_mag_cut(self@, k as nat);
        }
        let limit: u128 = 0x7fff_ffff_ffff_ffffu128;
        let fl: usize = self.frac_digits.len();
        let mut acc: u128 = 0;
        let ghost all: Seq<u8> = self@.all_digits();
        // integer digits, then the kept fraction digits
        let keep: usize = if fl <= k {
            fl
        } else {
            k
        };
        let mut i: usize = 0;
        while i < self.int_digits.len()
            invariant
                self.wf(),
                k <= 9,
                i <= self.int_digits@.len(),
                all == self@.all_digits(),
                acc == digits_val(all.subrange(0, i as int)),
                acc <= i64::MAX,
            decreases self.int_digits@.len() - i,
        {
            proof {
                assert(all.subrange(0, i + 1).drop_last() =~= all.subrange(0, i as int));
                assert(all.subrange(0, i + 1).last() == self.int_digits@[i as int]);
            }
            match acc_step(acc, self.int_digits[i]) {
                Some(a) => {
                    acc = a;
                },
                None => {
                    proof {
                        lemma_mag_overflow(self@, k as nat, i + 1);
                    }
                    return None;
                },
            }
            i += 1;
        }
        let mut j: usize = 0;
        while j < keep
            invariant
                self.wf(),
                k <= 9,
                keep <= self.frac_digits@.len(),
                keep == if self.frac_digits@.len() <= k {
                    self.frac_digits@.len() as int
                } else {
                    k as int
                },
                j <= keep,
                all == self@.all_digits(),
                acc == digits_val(all.subrange(0, self.int_digits@.len() + j)),
                acc <= i64::MAX,
            decreases keep - j,
        {
            proof {
                let c: int = self.int_digits@.len() + j;
                assert(all.subrange(0, c + 1).drop_last() =~= all.subrange(0, c));
                assert(all.subrange(0, c + 1).last() == self.frac_digits@[j as int]);
            }
            match acc_step(acc, self.frac_digits[j]) {
                Some(a) => {
                    acc = a;
                },
                None => {
                    proof {
                        lemma_mag_overflow(self@, k as nat, self.int_digits@.len() + j + 1);
                    }
                    return None;
                },
            }
            j += 1;
        }
        if fl <= k {
            // pad with zeros up to the shift
            proof {
                assert(all.subrange(0, all.len() as int) =~= all);
                lemma_digits_val_bounds(all);
            }
            let mut z: usize = k - fl;
            while z > 0
                invariant
                    self.wf(),
                    k <= 9,
                    fl == self.frac_digits@.len(),
                    fl <= k,
                    all == self@.all_digits(),
                    acc * pow10(z as nat) == digits_val(all) * pow10((k - fl) as nat),
                    acc <= i64::MAX,
                    digits_val(all) >= 0,
                decreases z,
            {
                proof {
                    assert(acc * pow10(z as nat) == (acc * 10) * pow10((z - 1) as nat))
                        by (nonlinear_arith)
                        requires
                            pow10(z as nat) == 10 * pow10((z - 1) as nat),
                    ;
                }
                match acc_step(acc, 0) {
                    Some(a) => {
                        acc = a;
                    },
                    None => {
                        proof {
                            lemma_scaled_mag_cut(self@, k as nat);
                            lemma_pow10_pos((z - 1) as nat);
                            assert((acc * 10) * pow10((z - 1) as nat) >= acc * 10)
                                by (nonlinear_arith)
                                requires
                                    pow10((z - 1) as nat) >= 1,
                                    acc >= 0,
                            ;
                        }
                        return None;
                    },
                }
                z -= 1;
            }
            finish_signed(self, acc, Ghost(self@.scaled_mag(k as nat)))
        } else {
            // the first dropped digit decides the rounding
            let d0: u8 = self.frac_digits[k];
            proof {
                assert(all[self.int_digits@.len() + k] == self.frac_digits@[k as int]);
            }
            proof {
                assert(self@.scaled_mag(k as nat) == digits_val(
                    all.subrange(0, self.int_digits@.len() + k as int),
                ) + if all[self.int_digits@.len() + k as int] >= 5 {
                    1int
                } else {
                    0int
                });
            }
            if d0 >= 5 {
                if acc == limit {
                    return None;
                }
                acc = acc + 1;
            }
            finish_signed(self, acc, Ghost(self@.scaled_mag(k as nat)))
        }
    }
    /// Renders this decimal canonically: no redundant leading or trailing
    /// zeros, the point omitted when no fraction digit remains.
    pub fn canonical(&self) -> (r: String)
        ensures
            r@ == canon_chars(self@),
    {
        let mut out: String = String::new();
        if self.neg {
            proof {
                reveal_strlit("-");
            }
            out.append("-");
        }
        let mut st: usize = 0;
        while self.int_digits.len() >= 1 && st < self.int_digits.len() - 1 && self.int_digits[st]
            == 0
            invariant
                st <= self.int_digits@.len(),
                self.int_digits@.len() >= 1 ==> st <= self.int_digits@.len() - 1,
                forall|k: int| 0 <= k < st ==> #[trigger] self.int_digits@[k] == 0,
            decreases self.int_digits.len() - st,
        {
            st += 1;
        }
        proof {
            if self.int_digits@.len() >= 1 {
                lemma_int_start_at(self.int_digits@, 0, st as int);
            }
        }
        push_digits(&mut out, &self.int_digits, st, self.int_digits.len());
        let mut fk: usize = self.frac_digits.len();
        while fk > 0 && self.frac_digits[fk - 1] == 0
            invariant
                fk <= self.frac_digits@.len(),
                forall|k: int| fk <= k < self.frac_digits@.len() ==> #[trigger] self.frac_digits@[k]
                    == 0,
            decreases fk,
        {
            fk -= 1;
        }
        proof {
            lemma_frac_keep_at(self.frac_digits@, fk as int);
        }
        if fk > 0 {
            proof {
                reveal_strlit(".");
            }
            out.append(".");
            push_digits(&mut out, &self.frac_digits, 0, fk);
        }
        proof {
            assert(out@ =~= canon_chars(self@));
        }
        out
    }

    /// Copies this decimal.
    pub fn duplicate(&self) -> (r: Decimal)
        ensures
            r@ == self@,
    {
        let mut int_digits: Vec<u8> = Vec::new();
        let mut i: usize = 0;
        while i < self.int_digits.len()
            invariant
                i <= self.int_digits.len(),
                int_digits@ == self.int_digits@.take(i as int),
            decreases self.int_digits.len() - i,
        {
            int_digits.push(self.int_digits[i]);
            proof {
                assert(int_digits@ =~= self.int_digits@.take(i + 1));
            }
            i += 1;
        }
        let mut frac_digits: Vec<u8> = Vec::new();
        let mut j: usize = 0;
        while j < self.frac_digits.len()
            invariant
                j <= self.frac_digits.len(),
                frac_digits@ == self.frac_digits@.take(j as int),
            decreases self.frac_digits.len() - j,
        {
            frac_digits.push(self.frac_digits[j]);
            proof {
                assert(frac_digits@ =~= self.frac_digits@.take(j + 1));
            }
            j += 1;
        }
        proof {
            assert(int_digits@ =~= self.int_digits@);
            assert(frac_digits@ =~= self.frac_digits@);
        }
        Decimal { neg: self.neg, int_digits, frac_digits }
    }
}

} // verus!
