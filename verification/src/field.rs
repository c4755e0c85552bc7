//! The prime field the engine computes in.
//!
//! The constraint engine is generic in spirit over the backend's field; here a
//! small prime field stands in for it, which keeps every value a plain
//! machine integer. All arithmetic is modulo [`MODULUS`], and the proofs
//! below establish the two field facts the rest of the crate leans on:
//! every nonzero element has a multiplicative inverse, and a product of
//! nonzero elements is nonzero.

use vstd::prelude::*;
use vstd::arithmetic::div_mod::{
    lemma_fundamental_div_mod, lemma_mod_add_multiples_vanish, lemma_mod_bound,
    lemma_mod_multiples_basic, lemma_mod_multiples_vanish, lemma_mul_mod_noop_left,
    lemma_mul_mod_noop_right, lemma_small_mod,
};

verus! {

/// Order of the field: a prime, so that nonzero elements are invertible.
pub const MODULUS: u64 = 101;

/// One element of the field, kept reduced: `rep < MODULUS`.
#[derive(Clone, Copy, Debug, PartialEq, Eq, Structural)]
pub struct Fe {
    pub rep: u64,
}

/// Sum in the field.
pub open spec fn fadd(a: u64, b: u64) -> u64 {
    (((a + b) % (MODULUS as int)) as u64)
}

/// Difference in the field (well behaved for reduced operands).
pub open spec fn fsub(a: u64, b: u64) -> u64 {
    (((a + MODULUS - b) % (MODULUS as int)) as u64)
}

/// Additive inverse in the field.
pub open spec fn fneg(a: u64) -> u64 {
    (((MODULUS - a) % (MODULUS as int)) as u64)
}

/// Product in the field.
pub open spec fn fmul(a: u64, b: u64) -> u64 {
    (((a * b) % (MODULUS as int)) as u64)
}

impl Fe {
    /// A reduced representative.
    pub open spec fn wf(self) -> bool {
        self.rep < MODULUS
    }

    /// The additive identity.
    pub fn zero() -> (r: Fe)
        ensures
            r.rep == 0,
            r.wf(),
    {
        Fe { rep: 0 }
    }

    /// The multiplicative identity.
    pub fn one() -> (r: Fe)
        ensures
            r.rep == 1,
            r.wf(),
    {
        Fe { rep: 1 }
    }

    /// An arbitrary integer, reduced into the field.
    pub fn from_u64(x: u64) -> (r: Fe)
        ensures
            r.rep == x % MODULUS,
            r.wf(),
    {
        Fe { rep: x % MODULUS }
    }

    pub fn add(self, o: Fe) -> (r: Fe)
        requires
            self.wf(),
            o.wf(),
        ensures
            r.rep == fadd(self.rep, o.rep),
            r.wf(),
    {
        Fe { rep: (self.rep + o.rep) % MODULUS }
    }

    pub fn sub(self, o: Fe) -> (r: Fe)
        requires
            self.wf(),
            o.wf(),
        ensures
            r.rep == fsub(self.rep, o.rep),
            r.wf(),
    {
        Fe { rep: (self.rep + MODULUS - o.rep) % MODULUS }
    }

    pub fn neg(self) -> (r: Fe)
        requires
            self.wf(),
        ensures
            r.rep == fneg(self.rep),
            r.wf(),
    {
        Fe { rep: (MODULUS - self.rep) % MODULUS }
    }

    pub fn mul(self, o: Fe) -> (r: Fe)
        requires
            self.wf(),
            o.wf(),
        ensures
            r.rep == fmul(self.rep, o.rep),
            r.wf(),
    {
        proof {
            assert(self.rep * o.rep <= 100 * 100) by (nonlinear_arith)
                requires
                    self.rep < 101,
                    o.rep < 101,
            ;
        }
        Fe { rep: (self.rep * o.rep) % MODULUS }
    }

    pub fn is_zero(self) -> (r: bool)
        ensures
            r == (self.rep == 0),
    {
        self.rep == 0
    }

    /// The multiplicative inverse of a nonzero element; zero maps to zero,
    /// so that inversion never fails (callers rely on a gate, not on this
    /// routine, to enforce correctness when the operand was zero).
    pub fn invert(self) -> (r: Fe)
        requires
            self.wf(),
        ensures
            r.wf(),
            self.rep == 0 ==> r.rep == 0,
            self.rep != 0 ==> fmul(r.rep, self.rep) == 1,
    {
        if self.rep == 0 {
            return Fe { rep: 0 };
        }
        let mut x: u64 = 0;
        while x < MODULUS
            invariant
                self.wf(),
                self.rep != 0,
                x <= MODULUS,
                forall|y: u64| y < x ==> fmul(y, self.rep) != 1,
            decreases MODULUS - x,
        {
            proof {
                assert(x * self.rep <= 100 * 100) by (nonlinear_arith)
                    requires
                        x < 101,
                        self.rep < 101,
                ;
            }
            if (x * self.rep) % MODULUS == 1 {
                return Fe { rep: x };
            }
            x = x + 1;
        }
        proof {
            lemma_inverse_exists(self.rep);
        }
        Fe { rep: 0 }
    }
}

/// `d` divides `a`.
pub open spec fn divides(d: int, a: int) -> bool {
    exists|k: int| a == #[trigger] (d * k)
}

/// `p` has no divisor strictly between 1 and itself.
pub open spec fn is_prime(p: int) -> bool {
    2 <= p && forall|d: int| 2 <= d < p ==> #[trigger] (p % d) != 0
}

/// Extended Euclid: a common divisor of `a` and `b` together with a
/// certificate that it is an integer combination of the two.
proof fn lemma_bezout(a: int, b: int) -> (r: (int, int, int))
    requires
        0 <= a,
        1 <= b,
    ensures
        r.0 == r.1 * a + r.2 * b,
        1 <= r.0,
        divides(r.0, a),
        divides(r.0, b),
    decreases a,
{
    if a == 0 {
        assert(divides(b, 0)) by {
            assert(0int == b * 0);
        }
        assert(divides(b, b)) by {
            assert(b == b * 1);
        }
        assert(b == 0 * 0 + 1 * b) by (nonlinear_arith);
        (b, 0, 1)
    } else {
        let q = b / a;
        let rem = b % a;
        lemma_fundamental_div_mod(b, a);
        lemma_mod_bound(b, a);
        let (g, s, t) = lemma_bezout(rem, a);
        let s2 = t - s * q;
        assert(g == s2 * a + s * b) by (nonlinear_arith)
            requires
                g == s * rem + t * a,
                rem == b - q * a,
                s2 == t - s * q,
        ;
        let k1 = choose|k: int| rem == #[trigger] (g * k);
        let k2 = choose|k: int| a == #[trigger] (g * k);
        assert(b == g * (q * k2 + k1)) by (nonlinear_arith)
            requires
                rem == g * k1,
                a == g * k2,
                rem == b - q * a,
        ;
        assert(divides(g, b));
        (g, s2, s)
    }
}

/// None of 2 ..= 10 divides the field order.
proof fn lemma_small_nondivisors(d: int)
    requires
        2 <= d <= 10,
    ensures
        101int % d != 0,
{
    if d == 2 {
        assert(101int % 2 == 1);
    } else if d == 3 {
        assert(101int % 3 == 2);
    } else if d == 4 {
        assert(101int % 4 == 1);
    } else if d == 5 {
        assert(101int % 5 == 1);
    } else if d == 6 {
        assert(101int % 6 == 5);
    } else if d == 7 {
        assert(101int % 7 == 3);
    } else if d == 8 {
        assert(101int % 8 == 5);
    } else if d == 9 {
        assert(101int % 9 == 2);
    } else {
        assert(101int % 10 == 1);
    }
}

/// The field order is prime: a proper divisor would come with a cofactor,
/// and one of the two would be at most 10, which the previous lemma rules
/// out.
pub proof fn lemma_modulus_prime()
    ensures
        is_prime(MODULUS as int),
{
    assert forall|d: int| 2 <= d < 101 implies #[trigger] (101int % d) != 0 by {
        if d <= 10 {
            lemma_small_nondivisors(d);
        } else if 101int % d == 0 {
            lemma_fundamental_div_mod(101, d);
            let q = 101int / d;
            assert(101 == d * q);
            assert(2 <= q <= 10) by (nonlinear_arith)
                requires
                    101 == d * q,
                    11 <= d < 101,
            ;
            assert((d * q) % q == 0) by {
                lemma_mod_multiples_basic(d, q);
            }
            lemma_small_nondivisors(q);
            assert(false);
        }
    }
    assert(MODULUS as int == 101);
}

/// Every nonzero field element has a multiplicative inverse.
pub proof fn lemma_inverse_exists(e: u64)
    requires
        1 <= e < MODULUS,
    ensures
        exists|x: u64| x < MODULUS && #[trigger] fmul(x, e) == 1,
{
    lemma_modulus_prime();
    let p: int = MODULUS as int;
    let (g, s, t) = lemma_bezout(e as int, p);
    let k = choose|k: int| e as int == #[trigger] (g * k);
    assert(g <= e) by (nonlinear_arith)
        requires
            e as int == g * k,
            1 <= g,
            1 <= e as int,
    ;
    if g >= 2 {
        let k2 = choose|k: int| p == #[trigger] (g * k);
        assert((k2 * g) % g == 0) by {
            lemma_mod_multiples_basic(k2, g);
        }
        assert(p % g == 0) by (nonlinear_arith)
            requires
                p == g * k2,
                (k2 * g) % g == 0,
        ;
        assert(false);
    }
    assert(1 == s * (e as int) + t * p);
    assert((p * t + s * (e as int)) % p == (s * (e as int)) % p) by {
        lemma_mod_multiples_vanish(t, s * (e as int), p);
    }
    assert(p * t + s * (e as int) == 1) by (nonlinear_arith)
        requires
            1 == s * (e as int) + t * p,
    ;
    lemma_small_mod(1nat, p as nat);
    assert((s * (e as int)) % p == 1);
    let x0 = s % p;
    lemma_mod_bound(s, p);
    assert((x0 * (e as int)) % p == 1) by {
        lemma_mul_mod_noop_left(s, e as int, p);
    }
    let xu = x0 as u64;
    assert(fmul(xu, e) == 1);
    assert(xu < MODULUS && fmul(xu, e) == 1);
}

/// Subtraction agrees with adding the additive inverse: the expression
/// vocabulary builds differences as `a + (-b)`.
pub proof fn lemma_sub_as_neg(a: u64, b: u64)
    requires
        a < MODULUS,
        b < MODULUS,
    ensures
        fadd(a, fneg(b)) == fsub(a, b),
{
    let p: int = MODULUS as int;
    if b == 0 {
        lemma_small_mod(0nat, p as nat);
        assert(fneg(0) == 0);
        lemma_small_mod(a as nat, p as nat);
        assert((p + a as int) % p == (a as int) % p) by {
            lemma_mod_add_multiples_vanish(a as int, p);
        }
    } else {
        lemma_small_mod((MODULUS - b) as nat, p as nat);
        assert(fneg(b) == MODULUS - b);
    }
}

/// A value plus its additive inverse is the additive identity.
pub proof fn lemma_add_neg(x: u64)
    requires
        x < MODULUS,
    ensures
        fadd(x, fneg(x)) == 0,
{
    let p: int = MODULUS as int;
    if x == 0 {
        assert(fneg(0) == 0);
        assert(fadd(0, 0) == 0);
    } else {
        lemma_small_mod((MODULUS - x) as nat, p as nat);
        assert(fneg(x) == MODULUS - x);
        assert((x + (MODULUS - x)) % p == 0);
    }
}

/// A product of nonzero field elements is nonzero: the field has no zero
/// divisors.
pub proof fn lemma_no_zero_divisors(a: u64, b: u64)
    requires
        a < MODULUS,
        b < MODULUS,
        a != 0,
        b != 0,
    ensures
        fmul(a, b) != 0,
{
    let p: int = MODULUS as int;
    if fmul(a, b) == 0 {
        lemma_inverse_exists(a);
        let xa = choose|x: u64| x < MODULUS && #[trigger] fmul(x, a) == 1;
        let ai = xa as int;
        let av = a as int;
        let bv = b as int;
        // Associate one way: (xa * a) * b, reducing the inner product first.
        assert(((ai * av) % p * bv) % p == (ai * av * bv) % p) by {
            lemma_mul_mod_noop_left(ai * av, bv, p);
        }
        assert((ai * av) % p == 1);
        assert((1 * bv) % p == bv % p);
        lemma_small_mod(b as nat, p as nat);
        assert((ai * av * bv) % p == bv) by (nonlinear_arith)
            requires
                ((ai * av) % p * bv) % p == (ai * av * bv) % p,
                (ai * av) % p == 1,
                (1 * bv) % p == bv % p,
                bv % p == bv,
        ;
        // Associate the other way: xa * (a * b), reducing the inner product.
        assert((ai * ((av * bv) % p)) % p == (ai * (av * bv)) % p) by {
            lemma_mul_mod_noop_right(ai, av * bv, p);
        }
        assert((av * bv) % p == 0);
        assert((ai * 0) % p == 0) by {
            lemma_small_mod(0nat, p as nat);
        }
        assert(ai * av * bv == ai * (av * bv)) by (nonlinear_arith);
        assert(bv == 0);
        assert(false);
    }
}

} // verus!
