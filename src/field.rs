//! Elements of the prime field with modulus `2^64 - 2^32 + 1`.
use vstd::arithmetic::div_mod::{
    lemma_mod_bound, lemma_mul_mod_noop, lemma_mul_mod_noop_general, lemma_small_mod,
};
use vstd::prelude::*;

verus! {

/// The modulus of the field, the prime `2^64 - 2^32 + 1`.
pub const MODULUS: u64 = 18446744069414584321;

/// The largest exponent that folding a power accepts, `2^32 - 1`; a larger one
/// is reported as an error rather than computed.
pub const MAX_EXPONENT: u64 = 4294967295;

/// `b` raised to the power `e`, over the naturals.
pub open spec fn power(b: nat, e: nat) -> nat
    decreases e,
{
    if e == 0 {
        1
    } else {
        b * power(b, (e - 1) as nat)
    }
}

proof fn lemma_power_add(b: nat, e1: nat, e2: nat)
    ensures
        power(b, e1 + e2) == power(b, e1) * power(b, e2),
    decreases e1,
{
    if e1 > 0 {
        lemma_power_add(b, (e1 - 1) as nat, e2);
        let p1 = power(b, (e1 - 1) as nat);
        let p2 = power(b, e2);
        assert((e1 + e2 - 1) as nat == (e1 - 1 + e2) as nat);
        assert(power(b, e1 + e2) == b * power(b, (e1 + e2 - 1) as nat));
        assert(power(b, e1) == b * p1);
        assert(b * (p1 * p2) == (b * p1) * p2) by (nonlinear_arith);
    } else {
        assert(power(b, 0) == 1);
        assert(e1 + e2 == e2);
    }
}

proof fn lemma_power_square(b: nat, k: nat)
    ensures
        power(b * b, k) == power(b, 2 * k),
    decreases k,
{
    if k > 0 {
        lemma_power_square(b, (k - 1) as nat);
        lemma_power_add(b, 2, (2 * (k - 1)) as nat);
        assert(power(b, 2) == b * b) by {
            assert(power(b, 0) == 1);
            assert(power(b, 1) == b * 1);
            assert(power(b, 2) == b * power(b, 1));
        }
        assert((2 + 2 * (k - 1)) as nat == 2 * k);
    }
}

proof fn lemma_power_mod(b: nat, e: nat)
    ensures
        power(b % MODULUS as nat, e) % MODULUS as nat == power(b, e) % MODULUS as nat,
    decreases e,
{
    let m = MODULUS as int;
    if e > 0 {
        lemma_power_mod(b, (e - 1) as nat);
        let x = b as int;
        let y = power(b, (e - 1) as nat) as int;
        let y2 = power(b % MODULUS as nat, (e - 1) as nat) as int;
        lemma_mul_mod_noop(x % m, y2, m);
        lemma_mul_mod_noop(x, y, m);
        vstd::arithmetic::div_mod::lemma_mod_twice(x, m);
    }
}

/// A field element, held as its canonical representative in `[0, MODULUS)`.
#[derive(Clone, Copy, Debug, PartialEq, Eq, Structural)]
pub struct FieldPrime {
    value: u64,
}

impl View for FieldPrime {
    type V = nat;

    closed spec fn view(&self) -> nat {
        self.value as nat % MODULUS as nat
    }
}

impl FieldPrime {
    #[verifier::type_invariant]
    spec fn canonical(self) -> bool {
        self.value < MODULUS
    }

    /// The element whose representative is `n` reduced modulo the field's modulus.
    pub closed spec fn from_nat(n: nat) -> FieldPrime {
        FieldPrime { value: (n % MODULUS as nat) as u64 }
    }

    pub open spec fn spec_add(self, other: FieldPrime) -> FieldPrime {
        FieldPrime::from_nat(self@ + other@)
    }

    pub open spec fn spec_sub(self, other: FieldPrime) -> FieldPrime {
        FieldPrime::from_nat((self@ + MODULUS - other@) as nat)
    }

    pub open spec fn spec_mul(self, other: FieldPrime) -> FieldPrime {
        FieldPrime::from_nat(self@ * other@)
    }

    pub open spec fn spec_pow(self, e: nat) -> FieldPrime {
        FieldPrime::from_nat(power(self@, e))
    }

    /// The multiplicative inverse `b^(MODULUS - 2)`, which Fermat's little theorem
    /// gives for every nonzero `b` since the modulus is prime.
    pub open spec fn spec_inverse(self) -> FieldPrime {
        self.spec_pow((MODULUS - 2) as nat)
    }

    pub open spec fn spec_div(self, other: FieldPrime) -> FieldPrime {
        self.spec_mul(other.spec_inverse())
    }

    pub broadcast proof fn lemma_view_bound(x: FieldPrime)
        ensures
            #[trigger] x@ < MODULUS,
    {
        lemma_mod_bound(x.value as int, MODULUS as int);
    }

    pub broadcast proof fn lemma_from_nat(n: nat)
        ensures
            #[trigger] FieldPrime::from_nat(n)@ == n % MODULUS as nat,
    {
        lemma_mod_bound(n as int, MODULUS as int);
        lemma_small_mod(n % MODULUS as nat, MODULUS as nat);
    }

    /// The element whose representative is `n` reduced modulo the field's modulus.
    pub fn from_u64(n: u64) -> (r: FieldPrime)
        ensures
            r == FieldPrime::from_nat(n as nat),
    {
        FieldPrime { value: n % MODULUS }
    }

    /// The canonical representative.
    pub fn value(&self) -> (r: u64)
        ensures
            r as nat == self@,
            r < MODULUS,
    {
        proof {
            use_type_invariant(self);
            lemma_small_mod(self.value as nat, MODULUS as nat);
        }
        self.value
    }

    pub fn add(self, other: FieldPrime) -> (r: FieldPrime)
        ensures
            r == self.spec_add(other),
    {
        let a = self.value();
        let b = other.value();
        proof {
            lemma_small_mod(a as nat, MODULUS as nat);
        }
        if a >= MODULUS - b {
            proof {
                lemma_small_mod((a + b - MODULUS) as nat, MODULUS as nat);
                vstd::arithmetic::div_mod::lemma_mod_sub_multiples_vanish((a + b) as int, MODULUS as int);
            }
            FieldPrime { value: a - (MODULUS - b) }
        } else {
            proof {
                lemma_small_mod((a + b) as nat, MODULUS as nat);
            }
            FieldPrime { value: a + b }
        }
    }

    pub fn sub(self, other: FieldPrime) -> (r: FieldPrime)
        ensures
            r == self.spec_sub(other),
    {
        let a = self.value();
        let b = other.value();
        if a >= b {
            proof {
                lemma_small_mod((a - b) as nat, MODULUS as nat);
                vstd::arithmetic::div_mod::lemma_mod_add_multiples_vanish((a - b) as int, MODULUS as int);
            }
            FieldPrime { value: a - b }
        } else {
            proof {
                lemma_small_mod((a + MODULUS - b) as nat, MODULUS as nat);
            }
            FieldPrime { value: a + (MODULUS - b) }
        }
    }

    pub fn mul(self, other: FieldPrime) -> (r: FieldPrime)
        ensures
            r == self.spec_mul(other),
    {
        let a = self.value() as u128;
        let b = other.value() as u128;
        assert(a * b < 0x1_0000_0000_0000_0000_0000_0000_0000_0000) by (nonlinear_arith)
            requires
                a < 0x1_0000_0000_0000_0000,
                b < 0x1_0000_0000_0000_0000,
        ;
        let p = a * b;
        let m = p % (MODULUS as u128);
        FieldPrime { value: m as u64 }
    }
    /// `self` raised to the power `e`, by repeated squaring.
    pub fn pow(self, e: u64) -> (r: FieldPrime)
        ensures
            r == self.spec_pow(e as nat),
    {
        let ghost m = MODULUS as nat;
        let mut result = FieldPrime { value: 1 };
        let mut base = self;
        let mut k: u64 = e;
        proof {
            use_type_invariant(self);
            lemma_small_mod(1, m);
            lemma_small_mod(self.value as nat, m);
        }
        while k > 0
            invariant
                (result@ * power(base@, k as nat)) % m == power(self@, e as nat) % m,
                m == MODULUS,
            decreases k,
        {
            let ghost r0 = result@;
            let ghost b0 = base@;
            let ghost half = (k / 2) as nat;
            let ghost y = power(b0 * b0, half);
            let ghost y2 = power((b0 * b0) % m, half);
            proof {
                lemma_power_square(b0, half);
                lemma_power_mod(b0 * b0, half);
                lemma_mul_mod_noop_general((r0 * b0) as int, y2 as int, m as int);
                lemma_mul_mod_noop_general((r0 * b0) as int, y as int, m as int);
                lemma_mul_mod_noop_general(r0 as int, y2 as int, m as int);
                lemma_mul_mod_noop_general(r0 as int, y as int, m as int);
            }
            if k % 2 == 1 {
                result = result.mul(base);
                proof {
                    FieldPrime::lemma_from_nat(r0 * b0);
                    lemma_power_add(b0, 1, 2 * half);
                    reveal_with_fuel(power, 2);
                    assert(k as nat == 1 + 2 * half);
                    vstd::arithmetic::mul::lemma_mul_is_associative(r0 as int, b0 as int, y as int);
                }
            } else {
                proof {
                    assert(k as nat == 2 * half);
                }
            }
            proof {
                FieldPrime::lemma_from_nat(b0 * b0);
            }
            base = base.mul(base);
            k = k / 2;
        }
        proof {
            use_type_invariant(result);
            assert(power(base@, 0) == 1);
            lemma_small_mod(result.value as nat, m);
            lemma_small_mod(result@, m);
            assert(result@ * power(base@, 0) == result@);
            assert(result.value as nat == power(self@, e as nat) % m);
        }
        result
    }
    /// The multiplicative inverse, computed as `self^(MODULUS - 2)`.
    pub fn inverse(self) -> (r: FieldPrime)
        ensures
            r == self.spec_inverse(),
    {
        self.pow(MODULUS - 2)
    }

    /// `self` times the inverse of `other`.
    pub fn div(self, other: FieldPrime) -> (r: FieldPrime)
        ensures
            r == self.spec_div(other),
    {
        self.mul(other.inverse())
    }
}

impl From<u64> for FieldPrime {
    fn from(n: u64) -> (r: FieldPrime) {
        FieldPrime::from_u64(n)
    }
}

impl vstd::std_specs::convert::FromSpecImpl<u64> for FieldPrime {
    open spec fn obeys_from_spec() -> bool {
        true
    }

    open spec fn from_spec(n: u64) -> FieldPrime {
        FieldPrime::from_nat(n as nat)
    }
}

} // verus!
