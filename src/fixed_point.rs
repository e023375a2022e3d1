//! Signed fixed-point numbers with 48 fractional bits, on the `fixed` crate.
use crate::errors::MarginfiError;
use fixed::types::I80F48;
use vstd::arithmetic::div_mod::{
    lemma_fundamental_div_mod, lemma_fundamental_div_mod_converse, lemma_mod_pos_bound,
};
use vstd::math::abs;
use vstd::prelude::*;

verus! {

/// Raw value of one in the fixed-point representation: 48 fractional bits.
pub const Q_ONE_BITS: i128 = 281474976710656;

/// Two to the 48th, the scale of the fixed-point representation.
pub open spec fn q_scale() -> int {
    281474976710656
}

pub open spec fn in_i128(x: int) -> bool {
    i128::MIN <= x <= i128::MAX
}

/// Raw value of the product of two raw values, rounded toward negative infinity.
pub open spec fn mul_floor(a: int, b: int) -> int {
    (a * b) / q_scale()
}

/// Raw value of the quotient of two raw values, rounded toward zero.
pub open spec fn div_trunc(a: int, b: int) -> int {
    let n = a * q_scale();
    let m = (abs(n) / abs(b)) as int;
    if (n >= 0) == (b > 0) {
        m
    } else {
        -m
    }
}

/// Raw value of the product, rounded toward positive infinity.
pub open spec fn mul_ceil(a: int, b: int) -> int {
    (a * b + q_scale() - 1) / q_scale()
}

/// Raw value of the quotient of a non-negative by a positive value, rounded up.
pub open spec fn div_ceil(a: int, b: int) -> int {
    (a * q_scale() + b - 1) / b
}

/// A signed 128-bit fixed-point number with 48 fractional bits:
/// the number `bits / 2^48`.
#[derive(Debug, Clone, Copy, PartialEq, Eq, Structural)]
pub struct Q {
    pub bits: i128,
}

/// The number with the given raw value, or a math error where it leaves i128.
pub open spec fn q_of(x: int) -> Result<Q, MarginfiError> {
    if in_i128(x) {
        Ok(Q { bits: x as i128 })
    } else {
        Err(MarginfiError::MathError)
    }
}

/// Raw value of a whole number.
pub open spec fn whole(n: int) -> int {
    n * q_scale()
}

/// Largest whole number not above the raw value `x`.
pub open spec fn floor_whole(x: int) -> int {
    x / q_scale()
}

/// Smallest whole number not below the raw value `x`.
pub open spec fn ceil_whole(x: int) -> int {
    (x + q_scale() - 1) / q_scale()
}

/// Relies on fixed's `I80F48::checked_mul`: the full 256-bit product of the
/// raw values, shifted right by the 48 fractional bits, or `None` where that
/// result leaves i128.
#[verifier::external_body]
fn i80f48_checked_mul(a: i128, b: i128) -> (r: Option<i128>)
    ensures
        in_i128(mul_floor(a as int, b as int)) ==> r == Some(mul_floor(a as int, b as int) as i128),
        !in_i128(mul_floor(a as int, b as int)) ==> r is None,
{
    match I80F48::from_bits(a).checked_mul(I80F48::from_bits(b)) {
        Some(p) => Some(p.to_bits()),
        None => None,
    }
}

/// Relies on fixed's `I80F48::checked_div`: the raw dividend widened by the
/// 48 fractional bits and divided by the raw divisor, rounded toward zero;
/// `None` for a zero divisor or where the quotient leaves i128.
#[verifier::external_body]
fn i80f48_checked_div(a: i128, b: i128) -> (r: Option<i128>)
    ensures
        b == 0 ==> r is None,
        b != 0 && in_i128(div_trunc(a as int, b as int)) ==> r == Some(
            div_trunc(a as int, b as int) as i128,
        ),
        b != 0 && !in_i128(div_trunc(a as int, b as int)) ==> r is None,
{
    match I80F48::from_bits(a).checked_div(I80F48::from_bits(b)) {
        Some(p) => Some(p.to_bits()),
        None => None,
    }
}

/// For a non-negative dividend and a positive divisor the quotient rounded
/// toward zero is the floor.
pub proof fn lemma_div_trunc_nonneg(a: int, b: int)
    requires
        a >= 0,
        b > 0,
    ensures
        div_trunc(a, b) == (a * q_scale()) / b,
        div_trunc(a, b) >= 0,
{
    assert(a * q_scale() >= 0) by (nonlinear_arith)
        requires
            a >= 0,
    ;
    lemma_fundamental_div_mod(a * q_scale(), b);
    lemma_mod_pos_bound(a * q_scale(), b);
    assert((a * q_scale()) / b >= 0) by (nonlinear_arith)
        requires
            a * q_scale() == b * ((a * q_scale()) / b) + (a * q_scale()) % b,
            (a * q_scale()) % b < b,
            b > 0,
            a * q_scale() >= 0,
    ;
}

/// The floor of a product of non-negative values is non-negative.
pub proof fn lemma_mul_floor_nonneg(a: int, b: int)
    requires
        a >= 0,
        b >= 0,
    ensures
        mul_floor(a, b) >= 0,
{
    assert(a * b >= 0) by (nonlinear_arith)
        requires
            a >= 0,
            b >= 0,
    ;
}

/// Multiplying by a factor of at least one does not decrease a non-negative value.
pub proof fn lemma_mul_floor_growth(a: int, g: int)
    requires
        a >= 0,
        g >= q_scale(),
    ensures
        mul_floor(a, g) >= a,
{
    assert(a * g >= a * q_scale()) by (nonlinear_arith)
        requires
            a >= 0,
            g >= q_scale(),
    ;
    lemma_fundamental_div_mod_converse(a * q_scale(), q_scale(), a, 0);
    vstd::arithmetic::div_mod::lemma_div_is_ordered(a * q_scale(), a * g, q_scale());
}

/// Multiplying by one leaves a value unchanged.
pub proof fn lemma_mul_floor_one(a: int)
    ensures
        mul_floor(a, q_scale()) == a,
{
    lemma_fundamental_div_mod_converse(a * q_scale(), q_scale(), a, 0);
}

/// Dividing by one leaves a non-negative value unchanged.
pub proof fn lemma_div_trunc_one(a: int)
    requires
        a >= 0,
    ensures
        div_trunc(a, q_scale()) == a,
{
    lemma_div_trunc_nonneg(a, q_scale());
    lemma_fundamental_div_mod_converse(a * q_scale(), q_scale(), a, 0);
}

impl Q {
    pub open spec fn spec_add(self, o: Q) -> Result<Q, MarginfiError> {
        q_of(self.bits + o.bits)
    }

    pub open spec fn spec_sub(self, o: Q) -> Result<Q, MarginfiError> {
        q_of(self.bits - o.bits)
    }

    pub open spec fn spec_mul(self, o: Q) -> Result<Q, MarginfiError> {
        q_of(mul_floor(self.bits as int, o.bits as int))
    }

    pub open spec fn spec_div(self, o: Q) -> Result<Q, MarginfiError> {
        if o.bits == 0 {
            Err(MarginfiError::MathError)
        } else {
            q_of(div_trunc(self.bits as int, o.bits as int))
        }
    }

    pub fn zero() -> (r: Q)
        ensures
            r.bits == 0,
    {
        Q { bits: 0 }
    }

    pub fn one() -> (r: Q)
        ensures
            r.bits == q_scale(),
    {
        Q { bits: Q_ONE_BITS }
    }

    /// The whole number `n`.
    pub fn from_u64(n: u64) -> (r: Q)
        ensures
            r.bits == whole(n as int),
    {
        assert(0 <= n as int * q_scale() <= 18446744073709551615 * q_scale()) by (nonlinear_arith)
            requires
                0 <= n <= 18446744073709551615u64,
        ;
        Q { bits: (n as i128) * Q_ONE_BITS }
    }

    pub fn checked_add(self, o: Q) -> (r: Result<Q, MarginfiError>)
        ensures
            r == self.spec_add(o),
    {
        match self.bits.checked_add(o.bits) {
            Some(b) => Ok(Q { bits: b }),
            None => Err(MarginfiError::MathError),
        }
    }

    pub fn checked_sub(self, o: Q) -> (r: Result<Q, MarginfiError>)
        ensures
            r == self.spec_sub(o),
    {
        match self.bits.checked_sub(o.bits) {
            Some(b) => Ok(Q { bits: b }),
            None => Err(MarginfiError::MathError),
        }
    }

    /// Product, rounded down to the nearest representable value.
    pub fn checked_mul(self, o: Q) -> (r: Result<Q, MarginfiError>)
        ensures
            r == self.spec_mul(o),
    {
        match i80f48_checked_mul(self.bits, o.bits) {
            Some(b) => Ok(Q { bits: b }),
            None => Err(MarginfiError::MathError),
        }
    }

    /// Quotient, rounded toward zero; a math error for a zero divisor.
    pub fn checked_div(self, o: Q) -> (r: Result<Q, MarginfiError>)
        ensures
            r == self.spec_div(o),
    {
        match i80f48_checked_div(self.bits, o.bits) {
            Some(b) => Ok(Q { bits: b }),
            None => Err(MarginfiError::MathError),
        }
    }

    /// Quotient of a non-negative value by a positive one, rounded up.
    pub fn checked_div_ceil(self, o: Q) -> (r: Result<Q, MarginfiError>)
        requires
            self.bits >= 0,
            o.bits > 0,
        ensures
            r == q_of(div_ceil(self.bits as int, o.bits as int)),
    {
        let ghost a = self.bits as int;
        let ghost b = o.bits as int;
        proof {
            lemma_div_trunc_nonneg(a, b);
            vstd::arithmetic::div_mod::lemma_div_is_ordered(a * q_scale(), a * q_scale() + b - 1, b);
        }
        let q = self.checked_div(o)?;
        proof {
            let n = a * q_scale();
            lemma_fundamental_div_mod(n, b);
            lemma_mod_pos_bound(n, b);
            let rem = n % b;
            assert(q.bits as int * b == n - rem) by (nonlinear_arith)
                requires
                    n == b * (q.bits as int) + rem,
            ;
            assert(q.bits as int * b <= a * q_scale());
            assert(q.bits as int * b >= 0) by (nonlinear_arith)
                requires
                    q.bits >= 0,
                    b > 0,
            ;
            vstd::arithmetic::div_mod::lemma_div_is_ordered(
                q.bits as int * b,
                a * q_scale(),
                q_scale(),
            );
            lemma_fundamental_div_mod_converse(a * q_scale(), q_scale(), a, 0);
            lemma_mul_floor_nonneg(q.bits as int, b);
        }
        let p = q.checked_mul(o)?;
        proof {
            let n = a * q_scale();
            let rem = n % b;
            let qq = q.bits as int;
            if rem == 0 {
                assert(qq * b == a * q_scale());
                lemma_fundamental_div_mod_converse(qq * b, q_scale(), a, 0);
                lemma_fundamental_div_mod_converse(n + b - 1, b, qq, b - 1);
            } else {
                // the product falls short of the dividend, so its floor does too
                lemma_fundamental_div_mod(qq * b, q_scale());
                lemma_mod_pos_bound(qq * b, q_scale());
                assert(p.bits as int * q_scale() <= qq * b);
                assert(p.bits as int * q_scale() < a * q_scale());
                assert(p.bits < a) by (nonlinear_arith)
                    requires
                        p.bits as int * q_scale() < a * q_scale(),
                        q_scale() > 0,
                ;
                assert(n + b - 1 == (qq + 1) * b + (rem - 1)) by (nonlinear_arith)
                    requires
                        n == b * qq + rem,
                ;
                lemma_fundamental_div_mod_converse(n + b - 1, b, qq + 1, rem - 1);
            }
        }
        if p.bits == self.bits {
            Ok(q)
        } else {
            q.checked_add(Q { bits: 1 })
        }
    }

    /// Product of two non-negative values, rounded up.
    pub fn checked_mul_ceil(self, o: Q) -> (r: Result<Q, MarginfiError>)
        requires
            self.bits >= 0,
            o.bits > 0,
        ensures
            r == q_of(mul_ceil(self.bits as int, o.bits as int)),
    {
        let ghost a = self.bits as int;
        let ghost b = o.bits as int;
        let ghost ab = a * b;
        proof {
            lemma_mul_floor_nonneg(a, b);
        }
        let p = self.checked_mul(o)?;
        let ghost pp = p.bits as int;
        proof {
            lemma_fundamental_div_mod(ab, q_scale());
            lemma_mod_pos_bound(ab, q_scale());
            assert(pp * q_scale() == ab - ab % q_scale());
            assert(pp * q_scale() <= a * b);
            assert(pp * q_scale() >= 0) by (nonlinear_arith)
                requires
                    pp >= 0,
            ;
            lemma_div_trunc_nonneg(pp, b);
            lemma_fundamental_div_mod_converse(a * b, b, a, 0);
            vstd::arithmetic::div_mod::lemma_div_is_ordered(pp * q_scale(), a * b, b);
        }
        let d = p.checked_div(o)?;
        proof {
            let rem = ab % q_scale();
            if rem == 0 {
                lemma_fundamental_div_mod_converse(pp * q_scale(), b, a, 0);
                lemma_fundamental_div_mod_converse(ab + q_scale() - 1, q_scale(), pp, q_scale() - 1);
            } else {
                assert(pp * q_scale() < a * b);
                lemma_fundamental_div_mod(pp * q_scale(), b);
                lemma_mod_pos_bound(pp * q_scale(), b);
                assert(d.bits as int * b <= pp * q_scale()) by (nonlinear_arith)
                    requires
                        pp * q_scale() == b * (d.bits as int) + (pp * q_scale()) % b,
                        (pp * q_scale()) % b >= 0,
                ;
                assert(d.bits < a) by (nonlinear_arith)
                    requires
                        d.bits as int * b < a * b,
                        b > 0,
                ;
                assert(ab + q_scale() - 1 == (pp + 1) * q_scale() + (rem - 1)) by (nonlinear_arith)
                    requires
                        ab == q_scale() * pp + rem,
                ;
                lemma_fundamental_div_mod_converse(ab + q_scale() - 1, q_scale(), pp + 1, rem - 1);
            }
        }
        if d.bits == self.bits {
            Ok(p)
        } else {
            p.checked_add(Q { bits: 1 })
        }
    }

    /// The largest whole number of native units not above a value, as `u64`.
    pub fn to_u64_floor(self) -> (r: Result<u64, MarginfiError>)
        ensures
            match r {
                Ok(n) => self.bits >= 0 && n as int == floor_whole(self.bits as int),
                Err(e) => e == MarginfiError::MathError && (self.bits < 0 || floor_whole(
                    self.bits as int,
                ) > u64::MAX),
            },
    {
        if self.bits < 0 {
            return Err(MarginfiError::MathError);
        }
        let w = (self.bits as u128) / (Q_ONE_BITS as u128);
        if w > u64::MAX as u128 {
            Err(MarginfiError::MathError)
        } else {
            Ok(w as u64)
        }
    }

    /// The smallest whole number of native units not below a value, as `u64`.
    pub fn to_u64_ceil(self) -> (r: Result<u64, MarginfiError>)
        ensures
            match r {
                Ok(n) => self.bits >= 0 && n as int == ceil_whole(self.bits as int),
                Err(e) => e == MarginfiError::MathError && (self.bits < 0 || ceil_whole(
                    self.bits as int,
                ) > u64::MAX),
            },
    {
        if self.bits < 0 {
            return Err(MarginfiError::MathError);
        }
        let u = self.bits as u128;
        let w = u / (Q_ONE_BITS as u128);
        let w = if u % (Q_ONE_BITS as u128) == 0 {
            w
        } else {
            w + 1
        };
        proof {
            let x = self.bits as int;
            lemma_fundamental_div_mod(x, q_scale());
            lemma_mod_pos_bound(x, q_scale());
            if x % q_scale() == 0 {
                lemma_fundamental_div_mod_converse(x + q_scale() - 1, q_scale(), x / q_scale(), q_scale() - 1);
            } else {
                lemma_fundamental_div_mod_converse(
                    x + q_scale() - 1,
                    q_scale(),
                    x / q_scale() + 1,
                    x % q_scale() - 1,
                );
            }
        }
        if w > u64::MAX as u128 {
            Err(MarginfiError::MathError)
        } else {
            Ok(w as u64)
        }
    }
}

/// Two to the 128th.
pub open spec fn pow2_128() -> int {
    (u64::MAX as int + 1) * (u64::MAX as int + 1)
}

/// The unsigned number that bytes spell in little-endian order.
pub open spec fn le_value(b: Seq<u8>) -> int
    decreases b.len(),
{
    if b.len() == 0 {
        0
    } else {
        b[0] as int + 256 * le_value(b.drop_first())
    }
}

/// The signed 128-bit number whose two's complement is `u`.
pub open spec fn from_twos(u: int) -> int {
    if u >= pow2_128() / 2 {
        u - pow2_128()
    } else {
        u
    }
}

/// Relies on `i128::to_le_bytes`: the two's complement of `x` in
/// little-endian byte order.
#[verifier::external_body]
fn i128_to_le_bytes(x: i128) -> (r: [u8; 16])
    ensures
        le_value(r@) == (x as int) % pow2_128(),
{
    x.to_le_bytes()
}

/// Relies on `i128::from_le_bytes`: the number whose two's complement the
/// bytes spell in little-endian order.
#[verifier::external_body]
fn i128_from_le_bytes(b: [u8; 16]) -> (r: i128)
    ensures
        r as int == from_twos(le_value(b@)),
{
    i128::from_le_bytes(b)
}

/// A fixed-point number as an account stores it: the raw value as 16 bytes,
/// little-endian two's complement.
#[derive(Debug, Clone, Copy)]
pub struct WrappedI80F48 {
    pub value: [u8; 16],
}

impl WrappedI80F48 {
    /// The stored form of a number.
    pub fn from_q(q: Q) -> (r: WrappedI80F48)
        ensures
            le_value(r.value@) == (q.bits as int) % pow2_128(),
    {
        WrappedI80F48 { value: i128_to_le_bytes(q.bits) }
    }

    /// The number that a stored form holds.
    pub fn to_q(&self) -> (r: Q)
        ensures
            r.bits as int == from_twos(le_value(self.value@)),
    {
        Q { bits: i128_from_le_bytes(self.value) }
    }
}

/// Storing a number and reading it back gives the number.
pub proof fn law_stored_round_trip(q: Q)
    ensures
        from_twos((q.bits as int) % pow2_128()) == q.bits,
{
    let x = q.bits as int;
    if x >= 0 {
        lemma_fundamental_div_mod_converse(x, pow2_128(), 0, x);
    } else {
        lemma_fundamental_div_mod_converse(x, pow2_128(), -1, x + pow2_128());
    }
}

} // verus!
