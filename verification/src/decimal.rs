use vstd::prelude::*;

verus! {

/// An exact decimal number: the value `mantissa / 10^scale`.
///
/// This mirrors the representation of `rust_decimal::Decimal`, which stores a
/// 96-bit signed magnitude together with a scale of at most 28. Arithmetic on
/// these numbers is delegated to `rust_decimal` through the wrappers below;
/// everything that can be stated about the representation itself (zero test,
/// absolute value, value ordering) is defined here directly.
#[derive(Clone, Copy, Debug)]
pub struct Dec {
    pub mantissa: i128,
    pub scale: u32,
}

/// The largest magnitude a decimal mantissa can carry: `2^96 - 1`.
pub open spec fn max_mantissa() -> int {
    0xFFFF_FFFF_FFFF_FFFF_FFFF_FFFF
}

/// The largest scale a decimal can carry.
pub open spec fn max_scale() -> u32 {
    28
}

impl Dec {
    /// A representable decimal: the magnitude fits in 96 bits and the scale
    /// does not exceed 28.
    pub open spec fn wf(self) -> bool {
        &&& -max_mantissa() <= self.mantissa <= max_mantissa()
        &&& self.scale <= max_scale()
    }
}

/// The decimal zero, written with scale 0.
pub open spec fn zero_dec() -> Dec {
    Dec { mantissa: 0, scale: 0 }
}

/// The decimal one, written with scale 0.
pub open spec fn one_dec() -> Dec {
    Dec { mantissa: 1, scale: 0 }
}

/// `10^n`.
pub open spec fn pow10(n: nat) -> int
    decreases n,
{
    if n == 0 {
        1
    } else {
        10 * pow10((n - 1) as nat)
    }
}

/// The numeric order on decimals, by cross-multiplying the mantissas:
/// `a < b` as values exactly when `a.mantissa / 10^a.scale < b.mantissa / 10^b.scale`.
pub open spec fn lt_spec(a: Dec, b: Dec) -> bool {
    a.mantissa * pow10(b.scale as nat) < b.mantissa * pow10(a.scale as nat)
}

/// The non-strict numeric order on decimals.
pub open spec fn le_spec(a: Dec, b: Dec) -> bool {
    a.mantissa * pow10(b.scale as nat) <= b.mantissa * pow10(a.scale as nat)
}

/// The absolute value of a decimal: the magnitude keeps its digits and its
/// scale, only the sign is cleared. The result never has a negative mantissa;
/// below the representable range (where no well-formed decimal lies) the
/// magnitude is taken as zero to keep it so.
pub open spec fn abs_spec(a: Dec) -> Dec {
    Dec {
        mantissa: if a.mantissa >= 0 {
            a.mantissa
        } else if -i128::MAX <= a.mantissa {
            (-a.mantissa) as i128
        } else {
            0
        },
        scale: a.scale,
    }
}

pub proof fn lemma_pow10_pos(n: nat)
    ensures
        pow10(n) >= 1,
    decreases n,
{
    if n > 0 {
        lemma_pow10_pos((n - 1) as nat);
    }
}

/// The value order is transitive across a strict and a non-strict step.
pub proof fn lemma_lt_le_trans(a: Dec, b: Dec, c: Dec)
    requires
        lt_spec(a, b),
        le_spec(b, c),
    ensures
        lt_spec(a, c),
{
    let pa = pow10(a.scale as nat);
    let pb = pow10(b.scale as nat);
    let pc = pow10(c.scale as nat);
    lemma_pow10_pos(a.scale as nat);
    lemma_pow10_pos(b.scale as nat);
    lemma_pow10_pos(c.scale as nat);
    assert(a.mantissa * pc < c.mantissa * pa) by (nonlinear_arith)
        requires
            pa >= 1,
            pb >= 1,
            pc >= 1,
            a.mantissa * pb < b.mantissa * pa,
            b.mantissa * pc <= c.mantissa * pb,
    {
    }
}

/// The value order is transitive across a non-strict and a strict step.
pub proof fn lemma_le_lt_trans(a: Dec, b: Dec, c: Dec)
    requires
        le_spec(a, b),
        lt_spec(b, c),
    ensures
        lt_spec(a, c),
{
    let pa = pow10(a.scale as nat);
    let pb = pow10(b.scale as nat);
    let pc = pow10(c.scale as nat);
    lemma_pow10_pos(a.scale as nat);
    lemma_pow10_pos(b.scale as nat);
    lemma_pow10_pos(c.scale as nat);
    assert(a.mantissa * pc < c.mantissa * pa) by (nonlinear_arith)
        requires
            pa >= 1,
            pb >= 1,
            pc >= 1,
            a.mantissa * pb <= b.mantissa * pa,
            b.mantissa * pc < c.mantissa * pb,
    {
    }
}

/// A decimal with a non-negative mantissa is never below one with a
/// non-positive mantissa.
pub proof fn lemma_nonneg_not_lt_nonpos(d: Dec, e: Dec)
    requires
        d.mantissa >= 0,
        e.mantissa <= 0,
    ensures
        !lt_spec(d, e),
{
    let pd = pow10(d.scale as nat);
    let pe = pow10(e.scale as nat);
    lemma_pow10_pos(d.scale as nat);
    lemma_pow10_pos(e.scale as nat);
    assert(d.mantissa * pe >= 0) by (nonlinear_arith)
        requires
            d.mantissa >= 0,
            pe >= 1,
    {
    }
    assert(e.mantissa * pd <= 0) by (nonlinear_arith)
        requires
            e.mantissa <= 0,
            pd >= 1,
    {
    }
}

/// Zero is below or equal to every decimal with a non-negative mantissa.
pub proof fn lemma_zero_le_nonneg(d: Dec)
    requires
        d.mantissa >= 0,
    ensures
        le_spec(zero_dec(), d),
{
    let pd = pow10(d.scale as nat);
    lemma_pow10_pos(d.scale as nat);
    assert(d.mantissa * pow10(0) >= 0) by (nonlinear_arith)
        requires
            d.mantissa >= 0,
    {
    }
}

impl Dec {
    /// The decimal zero.
    pub fn zero() -> (r: Dec)
        ensures
            r == zero_dec(),
            r.wf(),
    {
        Dec { mantissa: 0, scale: 0 }
    }

    /// The decimal one.
    pub fn one() -> (r: Dec)
        ensures
            r == one_dec(),
            r.wf(),
    {
        Dec { mantissa: 1, scale: 0 }
    }

    /// The absolute value; representable whenever the argument is.
    pub fn abs(self) -> (r: Dec)
        requires
            self.wf(),
        ensures
            r == abs_spec(self),
            r.wf(),
            r.mantissa >= 0,
    {
        if self.mantissa < 0 {
            Dec { mantissa: -self.mantissa, scale: self.scale }
        } else {
            self
        }
    }

    /// A decimal is zero exactly when its mantissa is zero, whatever its scale.
    pub fn is_zero(self) -> (r: bool)
        ensures
            r == (self.mantissa == 0),
    {
        self.mantissa == 0
    }
}

/// What `rust_decimal`'s checked addition returns: the exact sum when it is
/// representable after rounding, `None` otherwise.
pub uninterp spec fn add_of(a: Dec, b: Dec) -> Option<Dec>;

/// What `rust_decimal`'s checked subtraction returns.
pub uninterp spec fn sub_of(a: Dec, b: Dec) -> Option<Dec>;

/// What `rust_decimal`'s checked multiplication returns.
pub uninterp spec fn mul_of(a: Dec, b: Dec) -> Option<Dec>;

/// What `rust_decimal`'s checked division returns; `None` also covers a zero
/// divisor.
pub uninterp spec fn div_of(a: Dec, b: Dec) -> Option<Dec>;

/// What `rust_decimal`'s string parser returns: a decimal on success, the
/// parser's message text on failure.
pub uninterp spec fn parse_of(s: Seq<char>) -> Result<Dec, Seq<char>>;

/// Relies on `rust_decimal::Decimal::checked_add`: the sum of the two operand
/// values, rounded to the 96-bit decimal representation, or `None` when it
/// overflows; a function of the operand values alone.
#[verifier::external_body]
pub(crate) fn dec_add(a: Dec, b: Dec) -> (r: Option<Dec>)
    requires
        a.wf(),
        b.wf(),
    ensures
        r == add_of(a, b),
        r is Some ==> r->Some_0.wf(),
{
    rust_decimal::Decimal::from_i128_with_scale(a.mantissa, a.scale)
        .checked_add(rust_decimal::Decimal::from_i128_with_scale(b.mantissa, b.scale))
        .map(|d| Dec { mantissa: d.mantissa(), scale: d.scale() })
}

/// Relies on `rust_decimal::Decimal::checked_sub`: the difference of the two
/// operand values, rounded to the 96-bit decimal representation, or `None`
/// when it overflows; a function of the operand values alone.
#[verifier::external_body]
pub(crate) fn dec_sub(a: Dec, b: Dec) -> (r: Option<Dec>)
    requires
        a.wf(),
        b.wf(),
    ensures
        r == sub_of(a, b),
        r is Some ==> r->Some_0.wf(),
{
    rust_decimal::Decimal::from_i128_with_scale(a.mantissa, a.scale)
        .checked_sub(rust_decimal::Decimal::from_i128_with_scale(b.mantissa, b.scale))
        .map(|d| Dec { mantissa: d.mantissa(), scale: d.scale() })
}

/// Relies on `rust_decimal::Decimal::checked_mul`: the product of the two
/// operand values, rounded to the 96-bit decimal representation, or `None`
/// when it overflows; a function of the operand values alone.
#[verifier::external_body]
pub(crate) fn dec_mul(a: Dec, b: Dec) -> (r: Option<Dec>)
    requires
        a.wf(),
        b.wf(),
    ensures
        r == mul_of(a, b),
        r is Some ==> r->Some_0.wf(),
{
    rust_decimal::Decimal::from_i128_with_scale(a.mantissa, a.scale)
        .checked_mul(rust_decimal::Decimal::from_i128_with_scale(b.mantissa, b.scale))
        .map(|d| Dec { mantissa: d.mantissa(), scale: d.scale() })
}

/// Relies on `rust_decimal::Decimal::checked_div`: the quotient of the two
/// operand values, rounded to the 96-bit decimal representation, or `None`
/// when the divisor is zero or the quotient overflows; a function of the
/// operand values alone.
#[verifier::external_body]
pub(crate) fn dec_div(a: Dec, b: Dec) -> (r: Option<Dec>)
    requires
        a.wf(),
        b.wf(),
    ensures
        r == div_of(a, b),
        r is Some ==> r->Some_0.wf(),
{
    rust_decimal::Decimal::from_i128_with_scale(a.mantissa, a.scale)
        .checked_div(rust_decimal::Decimal::from_i128_with_scale(b.mantissa, b.scale))
        .map(|d| Dec { mantissa: d.mantissa(), scale: d.scale() })
}

/// Relies on `rust_decimal::Decimal`'s `PartialOrd`: decimals compare by
/// numeric value, aligning the scales, which is exactly the cross-multiplied
/// comparison `lt_spec`.
#[verifier::external_body]
pub(crate) fn dec_lt(a: Dec, b: Dec) -> (r: bool)
    requires
        a.wf(),
        b.wf(),
    ensures
        r == lt_spec(a, b),
{
    rust_decimal::Decimal::from_i128_with_scale(a.mantissa, a.scale)
        < rust_decimal::Decimal::from_i128_with_scale(b.mantissa, b.scale)
}

/// Relies on `rust_decimal::Decimal::from_str`: parsing a numeric literal is a
/// function of its characters alone; on failure the error is carried over as
/// its message text (`rust_decimal::Error` implements `Display`).
#[verifier::external_body]
pub(crate) fn dec_parse(s: &str) -> (r: Result<Dec, String>)
    ensures
        r is Ok <==> parse_of(s@) is Ok,
        r is Ok ==> r->Ok_0 == parse_of(s@)->Ok_0 && r->Ok_0.wf(),
        r is Err ==> r->Err_0@ == parse_of(s@)->Err_0,
{
    match <rust_decimal::Decimal as core::str::FromStr>::from_str(s) {
        Ok(d) => Ok(Dec { mantissa: d.mantissa(), scale: d.scale() }),
        Err(e) => Err(e.to_string()),
    }
}

} // verus!
