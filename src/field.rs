//! Arithmetic modulo a prime `p` that fits in a `u64`.
//!
//! A field element is a `u64` holding its canonical residue in `[0, p)`;
//! every operation takes canonical operands and returns a canonical result.
//! Products are formed in `u128`, so no intermediate overflows.
use vstd::prelude::*;
use vstd::arithmetic::power::*;
use vstd::arithmetic::div_mod::*;

verus! {

/// Greatest common divisor by Euclid's rule; `gcd(a, 0) == a`.
pub open spec fn gcd(a: nat, b: nat) -> nat
    decreases b,
{
    if b == 0 {
        a
    } else {
        gcd(b, a % b)
    }
}

/// `n` has no divisor strictly between 1 and itself.
pub open spec fn is_prime(n: nat) -> bool {
    &&& n >= 2
    &&& forall|d: nat| 1 < d < n ==> #[trigger] (n % d) != 0
}

/// Why a field operation could not produce a result.
#[derive(Clone, Copy, Debug, PartialEq, Eq, Structural)]
pub enum FieldError {
    /// The zero element has no multiplicative inverse.
    DivisionByZero,
    /// The element shares a factor with a modulus that is not prime.
    NotInvertible,
}

/// The field of residues modulo `p`.
#[derive(Clone, Copy, Debug, PartialEq, Eq, Structural)]
pub struct Field {
    pub p: u64,
}

impl Field {
    /// A modulus of at least 2; primality is what makes every nonzero
    /// element invertible, and is stated separately where needed.
    pub open spec fn wf(self) -> bool {
        self.p >= 2
    }

    pub fn new(p: u64) -> (r: Field)
        requires
            p >= 2,
        ensures
            r.p == p,
            r.wf(),
    {
        Field { p }
    }

    /// Reduces any integer to its canonical residue.
    pub fn reduce(&self, x: u64) -> (r: u64)
        requires
            self.wf(),
        ensures
            r == x % self.p,
            r < self.p,
    {
        x % self.p
    }

    pub fn add(&self, a: u64, b: u64) -> (r: u64)
        requires
            self.wf(),
            a < self.p,
            b < self.p,
        ensures
            r == (a + b) % (self.p as int),
            r < self.p,
    {
        let s: u128 = a as u128 + b as u128;
        (s % (self.p as u128)) as u64
    }

    pub fn sub(&self, a: u64, b: u64) -> (r: u64)
        requires
            self.wf(),
            a < self.p,
            b < self.p,
        ensures
            r == (a + self.p - b) % (self.p as int),
            r == (a - b) % (self.p as int),
            r < self.p,
    {
        let s: u128 = a as u128 + self.p as u128 - b as u128;
        proof {
            lemma_mod_add_multiples_vanish(a - b, self.p as int);
        }
        (s % (self.p as u128)) as u64
    }

    pub fn neg(&self, a: u64) -> (r: u64)
        requires
            self.wf(),
            a < self.p,
        ensures
            r == (self.p - a) % (self.p as int),
            r == 0 <==> a == 0,
            r < self.p,
    {
        if a == 0 {
            proof {
                lemma_mod_self_0(self.p as int);
            }
            0
        } else {
            proof {
                lemma_small_mod((self.p - a) as nat, self.p as nat);
            }
            self.p - a
        }
    }

    pub fn mul(&self, a: u64, b: u64) -> (r: u64)
        requires
            self.wf(),
            a < self.p,
            b < self.p,
        ensures
            r == (a * b) % (self.p as int),
            r < self.p,
    {
        proof {
            assert(a * b <= 0xffff_ffff_ffff_ffffu64 * 0xffff_ffff_ffff_ffffu64) by (nonlinear_arith)
                requires
                    a <= 0xffff_ffff_ffff_ffffu64,
                    b <= 0xffff_ffff_ffff_ffffu64,
            ;
        }
        let m: u128 = a as u128 * b as u128;
        (m % (self.p as u128)) as u64
    }

    /// `a` raised to `e` by square-and-multiply; `pow(a, 0) == 1`, also for `a == 0`.
    pub fn pow(&self, a: u64, e: u64) -> (r: u64)
        requires
            self.wf(),
            a < self.p,
        ensures
            r == pow(a as int, e as nat) % (self.p as int),
            r < self.p,
    {
        let ghost p = self.p as int;
        let mut acc: u64 = 1 % self.p;
        let mut base: u64 = a;
        let mut k: u64 = e;
        proof {
            lemma_pow0(base as int);
            lemma_mul_mod_noop_left(1, pow(a as int, e as nat), p);
        }
        while k > 0
            invariant
                self.wf(),
                p == self.p,
                acc < self.p,
                base < self.p,
                (acc * pow(base as int, k as nat)) % p == pow(a as int, e as nat) % p,
            decreases k,
        {
            let ghost k0 = k;
            let ghost acc0 = acc;
            let ghost base0 = base;
            let half: u64 = k / 2;
            let bit: u64 = k % 2;
            let sq = self.mul(base, base);
            if bit == 1 {
                acc = self.mul(acc, base);
            }
            base = sq;
            k = half;
            proof {
                let b = base0 as int;
                let q = half as nat;
                assert(k0 as nat == bit as nat + 2 * q);
                lemma_pow_adds(b, bit as nat, 2 * q);
                lemma_pow_multiplies(b, 2, q);
                lemma_square_is_pow2(b);
                lemma_pow_mod_noop(b * b, q, p);
                // acc0 * b^k0 == acc0 * b^bit * (b*b)^q
                let t = pow(b * b, q);
                assert(pow(b, k0 as nat) == pow(b, bit as nat) * t);
                assert(acc0 * pow(b, k0 as nat) == (acc0 * pow(b, bit as nat)) * t) by (nonlinear_arith)
                    requires
                        pow(b, k0 as nat) == pow(b, bit as nat) * t,
                ;
                if bit == 1 {
                    lemma_pow1(b);
                    assert(acc == (acc0 * b) % p);
                } else {
                    lemma_pow0(b);
                    lemma_small_mod(acc0 as nat, p as nat);
                    assert(acc == (acc0 * pow(b, bit as nat)) % p);
                }
                assert(acc == (acc0 * pow(b, bit as nat)) % p);
                assert(base == (b * b) % p);
                lemma_mul_mod_noop_general(acc0 * pow(b, bit as nat), t, p);
                lemma_mul_mod_noop_general(acc as int, pow(b * b, q), p);
                assert(pow(base as int, q) % p == t % p);
                assert((acc * pow(base as int, q)) % p == (acc * t) % p) by {
                    lemma_mul_mod_noop_right(acc as int, pow(base as int, q), p);
                    lemma_mul_mod_noop_right(acc as int, t, p);
                }
                assert((acc * t) % p == ((acc0 * pow(b, bit as nat)) * t) % p) by {
                    lemma_mul_mod_noop_left(acc0 * pow(b, bit as nat), t, p);
                }
            }
        }
        proof {
            lemma_pow0(base as int);
            lemma_small_mod(acc as nat, p as nat);
        }
        acc
    }

    /// The multiplicative inverse by the extended Euclidean algorithm.
    /// Zero is refused with `DivisionByZero`; any other element has an
    /// inverse exactly when it shares no factor with `p`.
    pub fn invert(&self, a: u64) -> (r: Result<u64, FieldError>)
        requires
            self.wf(),
            a < self.p,
        ensures
            a == 0 <==> r == Err::<u64, FieldError>(FieldError::DivisionByZero),
            a != 0 ==> (r is Ok <==> gcd(self.p as nat, a as nat) == 1),
            a != 0 && gcd(self.p as nat, a as nat) != 1 ==> r == Err::<u64, FieldError>(
                FieldError::NotInvertible,
            ),
            r matches Ok(x) ==> x < self.p && (a * x) % (self.p as int) == 1,
    {
        if a == 0 {
            return Err(FieldError::DivisionByZero);
        }
        let p = self.p;
        let ghost pi = p as int;
        // r0 == x0 * a - k0 * p and r1 == x1 * a - k1 * p throughout.
        let mut r0: u64 = p;
        let mut r1: u64 = a;
        let mut x0: u64 = 0;
        let mut x1: u64 = 1 % p;
        let ghost mut k0: int = -1;
        let ghost mut k1: int = 0;
        proof {
            lemma_small_mod(1, p as nat);
        }
        while r1 != 0
            invariant
                self.wf(),
                p == self.p,
                pi == p as int,
                x0 < p,
                x1 < p,
                r0 <= p,
                r1 < r0 || (r1 == 0),
                r1 <= p,
                r0 as int == x0 * (a as int) - k0 * pi,
                r1 as int == x1 * (a as int) - k1 * pi,
                gcd(r0 as nat, r1 as nat) == gcd(p as nat, a as nat),
            decreases r1,
        {
            let q: u64 = r0 / r1;
            let r2: u64 = r0 % r1;
            let qm = q % p;
            let t = self.mul(qm, x1);
            let x2 = self.sub(x0, t);
            proof {
                let qi = q as int;
                let ai = a as int;
                lemma_fundamental_div_mod(r0 as int, r1 as int);
                assert(r2 as int == r0 - qi * r1);
                // x2 == x0 - q * x1 + m * p for some integer m
                let d = x0 - qi * x1;
                lemma_fundamental_div_mod(d, pi);
                lemma_mul_mod_noop_left(qi, x1 as int, pi);
                lemma_sub_mod_noop_right(x0 as int, qi * x1, pi);
                assert(x2 as int == d % pi);
                let m = d / pi;
                assert(d == pi * m + x2);
                let k2 = k0 - qi * k1 - m * ai;
                assert(r2 as int == x2 * ai - k2 * pi) by (nonlinear_arith)
                    requires
                        r2 as int == r0 - qi * r1,
                        r0 as int == x0 * ai - k0 * pi,
                        r1 as int == x1 * ai - k1 * pi,
                        d == x0 - qi * x1,
                        d == pi * m + x2,
                        k2 == k0 - qi * k1 - m * ai,
                ;
                k0 = k1;
                k1 = k2;
            }
            r0 = r1;
            r1 = r2;
            x0 = x1;
            x1 = x2;
        }
        if r0 == 1 {
            proof {
                let ai = a as int;
                assert(x0 * ai == 1 + k0 * pi);
                lemma_mod_multiples_vanish(k0, 1, pi);
                lemma_small_mod(1, p as nat);
                assert(k0 * pi == pi * k0) by (nonlinear_arith);
                assert((x0 * ai) % pi == 1);
                assert((ai * x0) == (x0 * ai)) by (nonlinear_arith);
            }
            Ok(x0)
        } else {
            Err(FieldError::NotInvertible)
        }
    }
}

/// `gcd(a, b)` by Euclid's rule on machine integers.
pub fn gcd_u64(a: u64, b: u64) -> (r: u64)
    ensures
        r == gcd(a as nat, b as nat),
{
    let mut x: u64 = a;
    let mut y: u64 = b;
    while y != 0
        invariant
            gcd(x as nat, y as nat) == gcd(a as nat, b as nat),
        decreases y,
    {
        let z = x % y;
        x = y;
        y = z;
    }
    x
}

} // verus!
