use vstd::arithmetic::div_mod::*;
use vstd::arithmetic::mul::*;
use vstd::prelude::*;

verus! {

/// 2^64, the weight of the second limb.
pub open spec fn pow64() -> nat {
    0x1_0000_0000_0000_0000nat
}

/// 2^128, the weight of the third limb.
pub open spec fn pow128() -> nat {
    0x1_0000_0000_0000_0000_0000_0000_0000_0000nat
}

/// 2^192, the weight of the fourth limb.
pub open spec fn pow192() -> nat {
    0x1_0000_0000_0000_0000_0000_0000_0000_0000_0000_0000_0000_0000nat
}

/// 2^256, one more than the largest value four limbs can hold.
pub open spec fn pow256() -> nat {
    0x1_0000_0000_0000_0000_0000_0000_0000_0000_0000_0000_0000_0000_0000_0000_0000_0000nat
}

/// The order of the BN254 scalar field.
pub open spec fn modulus() -> nat {
    0x30644e72e131a029b85045b68181585d2833e84879b9709143e1f593f0000001nat
}

/// Limbs of the field order, least significant first.
pub const MODULUS_L0: u64 = 0x43e1f593f0000001;

pub const MODULUS_L1: u64 = 0x2833e84879b97091;

pub const MODULUS_L2: u64 = 0xb85045b68181585d;

pub const MODULUS_L3: u64 = 0x30644e72e131a029;

/// The integer that four limbs spell, least significant first.
pub open spec fn limbs_nat(limbs: Seq<u64>) -> nat {
    (limbs[0] + limbs[1] * pow64() + limbs[2] * pow128() + limbs[3] * pow192()) as nat
}

/// A 256-bit unsigned integer as four 64-bit limbs, least significant first.
#[derive(Clone, Copy, Debug, PartialEq, Eq, Structural)]
pub struct Limbs {
    pub l0: u64,
    pub l1: u64,
    pub l2: u64,
    pub l3: u64,
}

impl Limbs {
    /// The integer that the limbs spell.
    pub open spec fn value(self) -> nat {
        (self.l0 + self.l1 * pow64() + self.l2 * pow128() + self.l3 * pow192()) as nat
    }

    /// Whether the integer is a reduced residue of the field order.
    pub open spec fn canonical(self) -> bool {
        self.value() < modulus()
    }

    /// The limbs that spell `n`, for `n` below 2^256.
    pub open spec fn from_nat(n: nat) -> Limbs {
        Limbs {
            l0: (n % pow64()) as u64,
            l1: ((n / pow64()) % pow64()) as u64,
            l2: ((n / pow128()) % pow64()) as u64,
            l3: ((n / pow192()) % pow64()) as u64,
        }
    }

    /// Splitting the integer that limbs spell gives the limbs back.
    pub proof fn lemma_from_nat_value(self)
        ensures
            Limbs::from_nat(self.value()) == self,
            self.value() < pow256(),
    {
        let v = self.value() as int;
        let a = pow64() as int;
        let low1 = self.l0 as int;
        let low2 = self.l0 + self.l1 * a;
        let low3 = self.l0 + self.l1 * a + self.l2 * pow128();
        let high1 = self.l1 + self.l2 * a + self.l3 * pow128();
        let high2 = self.l2 + self.l3 * a;
        let high3 = self.l3 as int;
        lemma_fundamental_div_mod_converse(v, a, high1, low1);
        lemma_fundamental_div_mod_converse(high1, a, high2, self.l1 as int);
        lemma_fundamental_div_mod_converse(v, pow128() as int, high2, low2);
        lemma_fundamental_div_mod_converse(high2, a, high3, self.l2 as int);
        lemma_fundamental_div_mod_converse(v, pow192() as int, high3, low3);
        lemma_small_mod(self.l3 as nat, pow64());
    }

    /// The limbs of `n` spell `n`.
    pub proof fn lemma_value_from_nat(n: nat)
        requires
            n < pow256(),
        ensures
            Limbs::from_nat(n).value() == n,
    {
        let a = pow64() as int;
        let q1 = n as int / a;
        let q2 = n as int / (pow128() as int);
        let q3 = n as int / (pow192() as int);
        lemma_fundamental_div_mod(n as int, a);
        lemma_fundamental_div_mod(q1, a);
        lemma_fundamental_div_mod(q1 / a, a);
        lemma_div_denominator(n as int, a, a);
        lemma_div_denominator(n as int, pow128() as int, a);
        assert(a * a == pow128()) by (nonlinear_arith)
            requires a == pow64();
        assert(pow128() * a == pow192()) by (nonlinear_arith)
            requires a == pow64();
        assert(q1 / a == q2);
        assert(q2 / a == q3);
        lemma_div_pos_is_pos(n as int, pow192() as int);
        assert(q3 < a) by {
            lemma_fundamental_div_mod(n as int, pow192() as int);
            lemma_mod_bound(n as int, pow192() as int);
            if q3 >= a {
                lemma_mul_inequality(a, q3, pow192() as int);
            }
        }
        lemma_small_mod(q3 as nat, pow64());
    }

    /// Two sets of limbs that spell the same integer are the same.
    pub proof fn lemma_value_injective(self, other: Limbs)
        requires
            self.value() == other.value(),
        ensures
            self == other,
    {
        self.lemma_from_nat_value();
        other.lemma_from_nat_value();
    }

    /// The limbs that spell a 64-bit integer.
    pub fn from_u64(x: u64) -> (r: Limbs)
        ensures
            r.value() == x,
            r.canonical(),
    {
        Limbs { l0: x, l1: 0, l2: 0, l3: 0 }
    }

    /// Whether the limbs spell zero.
    pub fn is_zero(&self) -> (b: bool)
        ensures
            b == (self.value() == 0),
    {
        self.l0 == 0 && self.l1 == 0 && self.l2 == 0 && self.l3 == 0
    }

    /// Compares the integer with the field order, most significant limb first.
    pub fn is_canonical(&self) -> (b: bool)
        ensures
            b == self.canonical(),
    {
        if self.l3 != MODULUS_L3 {
            self.l3 < MODULUS_L3
        } else if self.l2 != MODULUS_L2 {
            self.l2 < MODULUS_L2
        } else if self.l1 != MODULUS_L1 {
            self.l1 < MODULUS_L1
        } else {
            self.l0 < MODULUS_L0
        }
    }
}

} // verus!
