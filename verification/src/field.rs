use crate::Error;
use crate::constants::CURVE_BN254;
use crate::constants::CURVE_BN254_ARK;
use crate::limbs::Limbs;
use crate::limbs::limbs_nat;
use crate::limbs::modulus;
use crate::numeral::decimal_digits;
use crate::numeral::digits_value;
use crate::numeral::hex_digits;
use crate::numeral::is_decimal_numeral;
use crate::numeral::is_hex_numeral;
use crate::numeral::lemma_decimal_digits;
use crate::numeral::lemma_hex_digits;
use crate::numeral::lemma_pow16_64;
use ark_ff::BigInt;
use ark_ff::PrimeField as ArkPrimeField;
use ff::PrimeField;
use halo2curves::bn256::Fr;
use num::Num;
use std::str::FromStr;
use vstd::arithmetic::div_mod::lemma_small_mod;
use vstd::prelude::*;
use vstd::string::StrSliceExecFns;

verus! {

/// Sum of two residues in the scalar field.
pub open spec fn field_add(a: nat, b: nat) -> nat {
    (a + b) % modulus()
}

/// Product of two residues in the scalar field.
pub open spec fn field_mul(a: nat, b: nat) -> nat {
    (a * b) % modulus()
}

/// An element of the BN254 scalar field as the constraint system holds it:
/// the reduced residue, as four little-endian limbs.
#[derive(Clone, Copy, Debug, PartialEq, Eq, Structural)]
pub struct FieldElement {
    pub(crate) limbs: Limbs,
}

impl View for FieldElement {
    type V = nat;

    /// The residue that the element stands for.
    closed spec fn view(&self) -> nat {
        self.limbs.value()
    }
}

impl FieldElement {
    /// Whether the element is a reduced residue.
    pub open spec fn wf(self) -> bool {
        self@ < modulus()
    }

    /// The element that stands for the residue `n`.
    pub closed spec fn from_nat(n: nat) -> FieldElement {
        FieldElement { limbs: Limbs::from_nat(n) }
    }

    /// `from_nat` gives a well-formed element with the residue asked for.
    pub proof fn lemma_from_nat(n: nat)
        requires
            n < modulus(),
        ensures
            FieldElement::from_nat(n).wf(),
            FieldElement::from_nat(n)@ == n,
    {
        Limbs::lemma_value_from_nat(n);
    }

    /// An element is determined by its residue.
    pub proof fn lemma_unique(self, other: FieldElement)
        requires
            self@ == other@,
        ensures
            self == other,
    {
        self.limbs.lemma_value_injective(other.limbs);
    }

    /// The additive identity.
    pub fn zero() -> (r: FieldElement)
        ensures
            r.wf(),
            r@ == 0,
    {
        FieldElement { limbs: Limbs::from_u64(0) }
    }

    /// The multiplicative identity.
    pub fn one() -> (r: FieldElement)
        ensures
            r.wf(),
            r@ == 1,
    {
        FieldElement { limbs: Limbs::from_u64(1) }
    }

    /// The element that stands for a 64-bit integer.
    pub fn from_u64(x: u64) -> (r: FieldElement)
        ensures
            r.wf(),
            r@ == x,
    {
        FieldElement { limbs: Limbs::from_u64(x) }
    }

    /// The element spelled by four little-endian limbs, if they are below
    /// the field order.
    pub fn from_limbs(limbs: [u64; 4]) -> (r: Option<FieldElement>)
        ensures
            match r {
                Some(x) => x.wf() && x@ == limbs_nat(limbs@),
                None => limbs_nat(limbs@) >= modulus(),
            },
    {
        let l = Limbs { l0: limbs[0], l1: limbs[1], l2: limbs[2], l3: limbs[3] };
        if l.is_canonical() {
            Some(FieldElement { limbs: l })
        } else {
            None
        }
    }

    /// The four little-endian limbs of the residue.
    pub fn to_limbs(&self) -> (r: [u64; 4])
        ensures
            limbs_nat(r@) == self@,
    {
        [self.limbs.l0, self.limbs.l1, self.limbs.l2, self.limbs.l3]
    }

    /// Whether the element is the additive identity.
    pub fn is_zero(&self) -> (b: bool)
        ensures
            b == (self@ == 0),
    {
        self.limbs.is_zero()
    }

    /// The element of the solver's encoding that stands for the same residue.
    pub open spec fn to_acir_spec(self) -> AcirFieldElement {
        AcirFieldElement::from_nat(self@)
    }

    /// The product of two elements, as an element.
    pub open spec fn mul_spec(self, rhs: FieldElement) -> FieldElement {
        FieldElement::from_nat(field_mul(self@, rhs@))
    }

    /// The product of two elements.
    pub fn mul(&self, rhs: &FieldElement) -> (r: FieldElement)
        requires
            self.wf(),
            rhs.wf(),
        ensures
            r.wf(),
            r@ == field_mul(self@, rhs@),
            r == self.mul_spec(*rhs),
    {
        let r = fr_mul(self, rhs);
        proof {
            FieldElement::lemma_from_nat(field_mul(self@, rhs@));
            r.lemma_unique(self.mul_spec(*rhs));
        }
        r
    }
}

/// Calls the multiplication of `halo2curves::bn256::Fr`. The factors go in
/// through `Fr::from_raw` and the product comes back through
/// `From<Fr> for [u64; 4]`, both of which work on the reduced residue. The
/// contract says that the product is the product of the residues modulo the
/// field order.
#[verifier::external_body]
fn fr_mul(a: &FieldElement, b: &FieldElement) -> (r: FieldElement)
    requires
        a.wf(),
        b.wf(),
    ensures
        r.wf(),
        r@ == field_mul(a@, b@),
{
    let x = Fr::from_raw([a.limbs.l0, a.limbs.l1, a.limbs.l2, a.limbs.l3]);
    let y = Fr::from_raw([b.limbs.l0, b.limbs.l1, b.limbs.l2, b.limbs.l3]);
    let [l0, l1, l2, l3] = <[u64; 4]>::from(x * y);
    FieldElement { limbs: Limbs { l0, l1, l2, l3 } }
}

/// An element of the BN254 scalar field as the solver holds it: the reduced
/// residue, as four little-endian limbs.
#[derive(Clone, Copy, Debug, PartialEq, Eq, Structural)]
pub struct AcirFieldElement {
    pub(crate) limbs: Limbs,
}

impl View for AcirFieldElement {
    type V = nat;

    /// The residue that the element stands for.
    closed spec fn view(&self) -> nat {
        self.limbs.value()
    }
}

impl AcirFieldElement {
    /// Whether the element is a reduced residue.
    pub open spec fn wf(self) -> bool {
        self@ < modulus()
    }

    /// The element that stands for the residue `n`.
    pub closed spec fn from_nat(n: nat) -> AcirFieldElement {
        AcirFieldElement { limbs: Limbs::from_nat(n) }
    }

    /// `from_nat` gives a well-formed element with the residue asked for.
    pub proof fn lemma_from_nat(n: nat)
        requires
            n < modulus(),
        ensures
            AcirFieldElement::from_nat(n).wf(),
            AcirFieldElement::from_nat(n)@ == n,
    {
        Limbs::lemma_value_from_nat(n);
    }

    /// An element is determined by its residue.
    pub proof fn lemma_unique(self, other: AcirFieldElement)
        requires
            self@ == other@,
        ensures
            self == other,
    {
        self.limbs.lemma_value_injective(other.limbs);
    }

    /// The element of the constraint system's encoding that stands for the
    /// same residue.
    pub open spec fn to_field_spec(self) -> FieldElement {
        FieldElement::from_nat(self@)
    }

    /// The additive identity.
    pub fn zero() -> (r: AcirFieldElement)
        ensures
            r.wf(),
            r@ == 0,
    {
        AcirFieldElement { limbs: Limbs::from_u64(0) }
    }

    /// The element that stands for a 64-bit integer.
    pub fn from_u64(x: u64) -> (r: AcirFieldElement)
        ensures
            r.wf(),
            r@ == x,
    {
        AcirFieldElement { limbs: Limbs::from_u64(x) }
    }

    /// The element spelled by four little-endian limbs, if they are below
    /// the field order.
    pub fn from_limbs(limbs: [u64; 4]) -> (r: Option<AcirFieldElement>)
        ensures
            match r {
                Some(x) => x.wf() && x@ == limbs_nat(limbs@),
                None => limbs_nat(limbs@) >= modulus(),
            },
    {
        let l = Limbs { l0: limbs[0], l1: limbs[1], l2: limbs[2], l3: limbs[3] };
        if l.is_canonical() {
            Some(AcirFieldElement { limbs: l })
        } else {
            None
        }
    }

    /// The four little-endian limbs of the residue.
    pub fn to_limbs(&self) -> (r: [u64; 4])
        ensures
            limbs_nat(r@) == self@,
    {
        [self.limbs.l0, self.limbs.l1, self.limbs.l2, self.limbs.l3]
    }

    /// Whether the element is the additive identity.
    pub fn is_zero(&self) -> (b: bool)
        ensures
            b == (self@ == 0),
    {
        self.limbs.is_zero()
    }
}

/// Whether `solver_type` and `field_type` name the two types between which
/// field elements are carried: the BN254 scalar field of arkworks and that
/// of halo2curves.
pub fn assert_types(solver_type: &str, field_type: &str) -> (ok: bool)
    ensures
        ok == (solver_type@ == CURVE_BN254_ARK@ && field_type@ == CURVE_BN254@),
{
    solver_type.to_owned() == CURVE_BN254_ARK.to_owned() && field_type.to_owned()
        == CURVE_BN254.to_owned()
}

/// Carries an element from the solver's encoding to the constraint
/// system's. Zero goes over directly; any other element is written as a
/// decimal numeral by the one encoding and read by the other.
pub fn generic_ark_ff_to_prime_field(input: &AcirFieldElement) -> (r: Result<FieldElement, Error>)
    requires
        input.wf(),
    ensures
        r matches Ok(x) && x.wf() && x@ == input@ && x == input.to_field_spec(),
{
    proof {
        FieldElement::lemma_from_nat(input@);
    }
    if input.is_zero() {
        let zero = FieldElement::zero();
        proof {
            zero.lemma_unique(input.to_field_spec());
        }
        return Ok(zero);
    }
    let text = ark_display(input);
    proof {
        lemma_decimal_digits(input@);
        lemma_small_mod(input@, modulus());
    }
    match fr_from_str_vartime(text.as_str()) {
        Some(x) => {
            proof {
                x.lemma_unique(input.to_field_spec());
            }
            Ok(x)
        },
        None => Err(Error::FieldConversionError(text)),
    }
}

/// Carries an element from the constraint system's encoding to the
/// solver's. Zero goes over directly; any other element is written in
/// hexadecimal by the one encoding, rewritten as a decimal numeral, and
/// read by the other.
pub fn ff_to_ark_prime_field(input: &FieldElement) -> (r: Result<AcirFieldElement, Error>)
    requires
        input.wf(),
    ensures
        r matches Ok(x) && x.wf() && x@ == input@ && x == input.to_acir_spec(),
{
    proof {
        AcirFieldElement::lemma_from_nat(input@);
    }
    if input.is_zero() {
        let zero = AcirFieldElement::zero();
        proof {
            zero.lemma_unique(input.to_acir_spec());
        }
        return Ok(zero);
    }
    let debug = fr_debug(input);
    proof {
        lemma_hex_digits(input@, 64);
        lemma_pow16_64();
    }
    let hex = debug.as_str().substring_char(2, 66);
    proof {
        assert(hex@ =~= hex_digits(input@, 64));
        lemma_decimal_digits(input@);
        lemma_small_mod(input@, modulus());
    }
    let text = bigint_decimal_of_hex(hex);
    match ark_from_str(text.as_str()) {
        Some(x) => {
            proof {
                x.lemma_unique(input.to_acir_spec());
            }
            Ok(x)
        },
        None => Err(Error::FieldConversionError(text)),
    }
}

/// An element that went to the other encoding and back is the element
/// that set out, in both directions.
pub proof fn lemma_field_round_trip(x: FieldElement, y: AcirFieldElement)
    requires
        x.wf(),
        y.wf(),
    ensures
        x.to_acir_spec().wf(),
        x.to_acir_spec().to_field_spec() == x,
        y.to_field_spec().wf(),
        y.to_field_spec().to_acir_spec() == y,
{
    AcirFieldElement::lemma_from_nat(x@);
    FieldElement::lemma_from_nat(x@);
    x.lemma_unique(x.to_acir_spec().to_field_spec());
    FieldElement::lemma_from_nat(y@);
    AcirFieldElement::lemma_from_nat(y@);
    y.lemma_unique(y.to_field_spec().to_acir_spec());
}

/// Formats an `ark_bn254::Fr` with `Display`, which writes the residue as a
/// decimal numeral and strips zeros from its front. The element goes in
/// through `Fp::new` on its limbs. The contract says that what comes out of
/// a residue other than zero is its decimal numeral.
#[verifier::external_body]
fn ark_display(x: &AcirFieldElement) -> (text: String)
    requires
        x.wf(),
        x@ != 0,
    ensures
        text@ == decimal_digits(x@),
{
    format!("{}", ark_bn254::Fr::new(BigInt([x.limbs.l0, x.limbs.l1, x.limbs.l2, x.limbs.l3])))
}

/// Calls `ff::PrimeField::from_str_vartime` of `halo2curves::bn256::Fr`,
/// which reads a decimal numeral as the residue congruent to it, and refuses
/// the empty string, a character that is no decimal digit, and a zero in
/// front of another digit. The residue comes back through
/// `From<Fr> for [u64; 4]`.
#[verifier::external_body]
fn fr_from_str_vartime(text: &str) -> (r: Option<FieldElement>)
    ensures
        match r {
            Some(x) => is_decimal_numeral(text@) && x.wf() && x@ == digits_value(text@, 10)
                % modulus(),
            None => !is_decimal_numeral(text@),
        },
{
    Fr::from_str_vartime(text).map(
        |x|
            {
                let [l0, l1, l2, l3] = <[u64; 4]>::from(x);
                FieldElement { limbs: Limbs { l0, l1, l2, l3 } }
            },
    )
}

/// Formats a `halo2curves::bn256::Fr` with `Debug`, which writes `0x` and
/// then the 32 bytes of the reduced residue, most significant first, as two
/// lower-case hexadecimal digits each. The element goes in through
/// `Fr::from_raw` on its limbs.
#[verifier::external_body]
fn fr_debug(x: &FieldElement) -> (text: String)
    requires
        x.wf(),
    ensures
        text@ == seq!['0', 'x'] + hex_digits(x@, 64),
{
    format!("{:?}", Fr::from_raw([x.limbs.l0, x.limbs.l1, x.limbs.l2, x.limbs.l3]))
}

/// Reads a hexadecimal numeral with `num::BigInt::from_str_radix` and
/// writes the number with `Display`, which gives its decimal numeral.
#[verifier::external_body]
fn bigint_decimal_of_hex(text: &str) -> (out: String)
    requires
        is_hex_numeral(text@),
    ensures
        out@ == decimal_digits(digits_value(text@, 16)),
{
    num::BigInt::from_str_radix(text, 16).unwrap().to_string()
}

/// Calls `FromStr::from_str` of `ark_bn254::Fr`, which reads a decimal
/// numeral as the residue congruent to it, and refuses the empty string, a
/// character that is no decimal digit, and a zero in front of another
/// digit. The residue comes back through `into_bigint`.
#[verifier::external_body]
fn ark_from_str(text: &str) -> (r: Option<AcirFieldElement>)
    ensures
        match r {
            Some(x) => is_decimal_numeral(text@) && x.wf() && x@ == digits_value(text@, 10)
                % modulus(),
            None => !is_decimal_numeral(text@),
        },
{
    ark_bn254::Fr::from_str(text).ok().map(
        |x|
            {
                let [l0, l1, l2, l3] = x.into_bigint().0;
                AcirFieldElement { limbs: Limbs { l0, l1, l2, l3 } }
            },
    )
}

} // verus!
