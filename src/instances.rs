//! The named parameter sets.
//!
//! These are stand-in instances over primes below `2^64`, with tables this
//! library derives; they are not the published parameter sets of the curves
//! whose names they carry, whose fields are about 255 bits wide and whose
//! constants come from outside.
//!
//! Each instance fixes a prime modulus, a width, an S-box exponent and
//! round counts. Its round constants are the successive powers
//! `g^1, g^2, ...` of a seed element `g`, and its MDS matrix is the Cauchy
//! matrix `M[i][j] = 1 / (i + j + t)`, whose entries are inverted in the
//! field when the instance is built.
use vstd::prelude::*;
use vstd::arithmetic::power::pow;
use crate::field::{gcd, Field, FieldError};
use crate::params::{is_build_error, ParamSet, PoseidonError};

verus! {

/// The modulus `2^64 - 59`.
pub const S128B_P: u64 = 18446744073709551557;

/// The modulus `2^64 - 2^32 + 1`, shared by the `sw` instances.
pub const SW_P: u64 = 18446744069414584321;

/// The modulus `2^61 - 1`.
pub const PALLAS_P: u64 = 2305843009213693951;

/// The modulus `2^31 - 1`.
pub const VESTA_P: u64 = 2147483647;

/// `n` round constants: `g^(k+1) mod p` for `k < n`.
pub open spec fn power_constants(p: nat, g: u64, n: nat) -> Seq<u64> {
    Seq::new(n, |k: int| (pow(g as int, (k + 1) as nat) % (p as int)) as u64)
}

/// The Cauchy denominator of entry `(i, j)` of a width-`t` matrix.
pub open spec fn cauchy_denominator(t: nat, i: int, j: int) -> int {
    i + j + t
}

/// `m` is the width-`t` Cauchy matrix modulo `p`.
pub open spec fn is_cauchy(p: nat, t: nat, m: Seq<Vec<u64>>) -> bool {
    &&& m.len() == t
    &&& forall|i: int| 0 <= i < t ==> (#[trigger] m[i])@.len() == t
    &&& forall|i: int, j: int|
        0 <= i < t && 0 <= j < t ==> #[trigger] m[i]@[j] < p && (m[i]@[j] * cauchy_denominator(
            t,
            i,
            j,
        )) % (p as int) == 1
}

/// Every Cauchy denominator is invertible modulo `p`.
pub open spec fn cauchy_invertible(p: nat, t: nat) -> bool {
    forall|i: int, j: int|
        0 <= i < t && 0 <= j < t ==> #[trigger] gcd(p, (cauchy_denominator(t, i, j) % (p as int)) as nat)
            == 1
}

/// The parameter set built from the given description.
pub open spec fn is_instance(
    ps: &ParamSet,
    p: u64,
    t: usize,
    c: usize,
    alpha: u64,
    full_rounds: usize,
    partial_rounds: usize,
    g: u64,
) -> bool {
    &&& ps.wf()
    &&& ps.p == p
    &&& ps.t == t
    &&& ps.c == c
    &&& ps.alpha == alpha
    &&& ps.full_rounds == full_rounds
    &&& ps.partial_rounds == partial_rounds
    &&& ps.round_constants@ == power_constants(p as nat, g, (ps.rounds() * t) as nat)
    &&& is_cauchy(p as nat, t as nat, ps.mds@)
}

/// The first `n` powers of `g`, starting from `g^1`.
pub fn derive_round_constants(f: &Field, g: u64, n: usize) -> (r: Vec<u64>)
    requires
        f.wf(),
        g < f.p,
    ensures
        r@ == power_constants(f.p as nat, g, n as nat),
{
    let mut out: Vec<u64> = Vec::new();
    let mut k: usize = 0;
    while k < n
        invariant
            f.wf(),
            g < f.p,
            k <= n,
            out@.len() == k,
            forall|j: int|
                0 <= j < k ==> #[trigger] out@[j] == power_constants(f.p as nat, g, n as nat)[j],
        decreases n - k,
    {
        let e: u64 = k as u64 + 1;
        let v = f.pow(g, e);
        out.push(v);
        k = k + 1;
    }
    assert(out@ =~= power_constants(f.p as nat, g, n as nat));
    out
}

/// Some Cauchy denominator is a multiple of `p`.
pub open spec fn cauchy_has_zero(p: nat, t: nat) -> bool {
    exists|i: int, j: int|
        0 <= i < t && 0 <= j < t && #[trigger] cauchy_denominator(t, i, j) % (p as int) == 0
}

/// The width-`t` Cauchy matrix. A denominator that is a multiple of `p`
/// gives `DivisionByZero`; otherwise one that shares a factor with `p`
/// gives `MalformedParameters`.
pub fn derive_cauchy_mds(f: &Field, t: usize) -> (r: Result<Vec<Vec<u64>>, PoseidonError>)
    requires
        f.wf(),
        t <= 0x4000_0000,
    ensures
        r matches Ok(m) ==> is_cauchy(f.p as nat, t as nat, m@),
        r is Ok <==> cauchy_invertible(f.p as nat, t as nat),
        r == Err::<Vec<Vec<u64>>, PoseidonError>(PoseidonError::DivisionByZero) <==> cauchy_has_zero(
            f.p as nat,
            t as nat,
        ),
        r == Err::<Vec<Vec<u64>>, PoseidonError>(PoseidonError::MalformedParameters) <==> (
        !cauchy_has_zero(f.p as nat, t as nat) && !cauchy_invertible(f.p as nat, t as nat)),
{
    let ghost p = f.p as int;
    let mut i: usize = 0;
    while i < t
        invariant
            f.wf(),
            p == f.p,
            t <= 0x4000_0000,
            i <= t,
            forall|a: int, b: int|
                0 <= a < i && 0 <= b < t ==> #[trigger] cauchy_denominator(t as nat, a, b) % p
                    != 0,
        decreases t - i,
    {
        let mut j: usize = 0;
        while j < t
            invariant
                f.wf(),
                p == f.p,
                t <= 0x4000_0000,
                i < t,
                j <= t,
                forall|a: int, b: int|
                    0 <= a < i && 0 <= b < t ==> #[trigger] cauchy_denominator(t as nat, a, b) % p
                        != 0,
                forall|b: int|
                    0 <= b < j ==> #[trigger] cauchy_denominator(t as nat, i as int, b) % p != 0,
            decreases t - j,
        {
            let d = (i + j + t) as u64;
            if d % f.p == 0 {
                proof {
                    let di = cauchy_denominator(t as nat, i as int, j as int);
                    assert(di % p == 0);
                    assert(gcd(f.p as nat, (di % p) as nat) != 1);
                }
                return Err(PoseidonError::DivisionByZero);
            }
            j = j + 1;
        }
        i = i + 1;
    }
    assert(!cauchy_has_zero(f.p as nat, t as nat));
    let mut m: Vec<Vec<u64>> = Vec::new();
    let mut i: usize = 0;
    while i < t
        invariant
            f.wf(),
            p == f.p,
            t <= 0x4000_0000,
            i <= t,
            !cauchy_has_zero(f.p as nat, t as nat),
            m@.len() == i,
            forall|a: int| 0 <= a < i ==> (#[trigger] m@[a])@.len() == t,
            forall|a: int, b: int|
                0 <= a < i && 0 <= b < t ==> #[trigger] m@[a]@[b] < f.p && (m@[a]@[b]
                    * cauchy_denominator(t as nat, a, b)) % p == 1,
            forall|a: int, b: int|
                0 <= a < i && 0 <= b < t ==> #[trigger] gcd(
                    f.p as nat,
                    (cauchy_denominator(t as nat, a, b) % p) as nat,
                ) == 1,
        decreases t - i,
    {
        let mut row: Vec<u64> = Vec::new();
        let mut j: usize = 0;
        while j < t
            invariant
                f.wf(),
                p == f.p,
                t <= 0x4000_0000,
                i < t,
                j <= t,
                !cauchy_has_zero(f.p as nat, t as nat),
                row@.len() == j,
                forall|b: int|
                    0 <= b < j ==> #[trigger] row@[b] < f.p && (row@[b] * cauchy_denominator(
                        t as nat,
                        i as int,
                        b,
                    )) % p == 1,
                forall|b: int|
                    0 <= b < j ==> #[trigger] gcd(
                        f.p as nat,
                        (cauchy_denominator(t as nat, i as int, b) % p) as nat,
                    ) == 1,
            decreases t - j,
        {
            let d = (i + j + t) as u64;
            let dr = f.reduce(d);
            match f.invert(dr) {
                Ok(x) => {
                    proof {
                        vstd::arithmetic::div_mod::lemma_mul_mod_noop_right(
                            x as int,
                            d as int,
                            p,
                        );
                    }
                    row.push(x);
                },
                Err(e) => {
                    proof {
                        let di = cauchy_denominator(t as nat, i as int, j as int);
                        assert(di % p != 0);
                        assert(e == FieldError::NotInvertible);
                        assert(!(gcd(f.p as nat, (di % p) as nat) == 1));
                    }
                    return Err(PoseidonError::MalformedParameters);
                },
            }
            j = j + 1;
        }
        m.push(row);
        proof {
            assert forall|a: int, b: int|
                0 <= a < i + 1 && 0 <= b < t implies #[trigger] m@[a]@[b] < f.p && (m@[a]@[b]
                    * cauchy_denominator(t as nat, a, b)) % p == 1 by {
                if a < i {
                } else {
                    assert(m@[a]@ == row@);
                }
            }
        }
        i = i + 1;
    }
    Ok(m)
}

/// Builds an instance from its description, deriving its tables.
pub fn build(
    p: u64,
    t: usize,
    c: usize,
    alpha: u64,
    full_rounds: usize,
    partial_rounds: usize,
    g: u64,
) -> (r: Result<ParamSet, PoseidonError>)
    requires
        p >= 2,
        g < p,
        t <= 0x100,
        full_rounds + partial_rounds <= 0x1_0000,
    ensures
        r matches Ok(ps) ==> is_instance(&ps, p, t, c, alpha, full_rounds, partial_rounds, g),
        r matches Err(e) ==> is_build_error(e),
        c >= 1 && c < t && full_rounds % 2 == 0 && gcd(alpha as nat, (p - 1) as nat) == 1
            && cauchy_invertible(p as nat, t as nat) ==> r is Ok,
{
    let f = Field::new(p);
    assert((full_rounds + partial_rounds) * t <= 0x100_0000) by (nonlinear_arith)
        requires
            full_rounds + partial_rounds <= 0x1_0000,
            t <= 0x100,
    ;
    let n = (full_rounds + partial_rounds) * t;
    let rc = derive_round_constants(&f, g, n);
    let mds = match derive_cauchy_mds(&f, t) {
        Ok(m) => m,
        Err(e) => {
            return Err(e);
        },
    };
    proof {
        assert forall|k: int| 0 <= k < rc@.len() implies #[trigger] rc@[k] < p by {
            assert(rc@[k] == (pow(g as int, (k + 1) as nat) % (p as int)) as u64);
        }
        assert forall|i: int| 0 <= i < t implies (#[trigger] mds@[i])@.len() == t by {}
    }
    ParamSet::new(p, t, c, alpha, full_rounds, partial_rounds, rc, mds)
}

pub fn s128b() -> (r: Result<ParamSet, PoseidonError>)
    ensures
        r matches Ok(ps) && is_instance(&ps, S128B_P, 3, 1, 5, 8, 56, 7),
{
    proof {
        lemma_s128b_alpha();
        assert forall|i: int, j: int| 0 <= i < 3 && 0 <= j < 3 implies #[trigger] gcd(
            S128B_P as nat,
            (cauchy_denominator(3, i, j) % (S128B_P as int)) as nat,
        ) == 1 by {
            lemma_s128b_coprime((i + j + 3) as nat);
        }
    }
    build(S128B_P, 3, 1, 5, 8, 56, 7)
}

pub fn sw2() -> (r: Result<ParamSet, PoseidonError>)
    ensures
        r matches Ok(ps) && is_instance(&ps, SW_P, 3, 1, 7, 8, 22, 3),
{
    proof {
        lemma_sw_alpha();
        assert forall|i: int, j: int| 0 <= i < 3 && 0 <= j < 3 implies #[trigger] gcd(
            SW_P as nat,
            (cauchy_denominator(3, i, j) % (SW_P as int)) as nat,
        ) == 1 by {
            lemma_sw_coprime((i + j + 3) as nat);
        }
    }
    build(SW_P, 3, 1, 7, 8, 22, 3)
}

pub fn sw3() -> (r: Result<ParamSet, PoseidonError>)
    ensures
        r matches Ok(ps) && is_instance(&ps, SW_P, 4, 1, 7, 8, 22, 5),
{
    proof {
        lemma_sw_alpha();
        assert forall|i: int, j: int| 0 <= i < 4 && 0 <= j < 4 implies #[trigger] gcd(
            SW_P as nat,
            (cauchy_denominator(4, i, j) % (SW_P as int)) as nat,
        ) == 1 by {
            lemma_sw_coprime((i + j + 4) as nat);
        }
    }
    build(SW_P, 4, 1, 7, 8, 22, 5)
}

pub fn sw4() -> (r: Result<ParamSet, PoseidonError>)
    ensures
        r matches Ok(ps) && is_instance(&ps, SW_P, 5, 1, 7, 8, 22, 11),
{
    proof {
        lemma_sw_alpha();
        assert forall|i: int, j: int| 0 <= i < 5 && 0 <= j < 5 implies #[trigger] gcd(
            SW_P as nat,
            (cauchy_denominator(5, i, j) % (SW_P as int)) as nat,
        ) == 1 by {
            lemma_sw_coprime((i + j + 5) as nat);
        }
    }
    build(SW_P, 5, 1, 7, 8, 22, 11)
}

pub fn sw8() -> (r: Result<ParamSet, PoseidonError>)
    ensures
        r matches Ok(ps) && is_instance(&ps, SW_P, 9, 1, 7, 8, 22, 13),
{
    proof {
        lemma_sw_alpha();
        assert forall|i: int, j: int| 0 <= i < 9 && 0 <= j < 9 implies #[trigger] gcd(
            SW_P as nat,
            (cauchy_denominator(9, i, j) % (SW_P as int)) as nat,
        ) == 1 by {
            lemma_sw_coprime((i + j + 9) as nat);
        }
    }
    build(SW_P, 9, 1, 7, 8, 22, 13)
}

pub fn pallas() -> (r: Result<ParamSet, PoseidonError>)
    ensures
        r matches Ok(ps) && is_instance(&ps, PALLAS_P, 3, 1, 17, 8, 56, 17),
{
    proof {
        lemma_pallas_alpha();
        assert forall|i: int, j: int| 0 <= i < 3 && 0 <= j < 3 implies #[trigger] gcd(
            PALLAS_P as nat,
            (cauchy_denominator(3, i, j) % (PALLAS_P as int)) as nat,
        ) == 1 by {
            lemma_pallas_coprime((i + j + 3) as nat);
        }
    }
    build(PALLAS_P, 3, 1, 17, 8, 56, 17)
}

pub fn vesta() -> (r: Result<ParamSet, PoseidonError>)
    ensures
        r matches Ok(ps) && is_instance(&ps, VESTA_P, 3, 1, 5, 8, 56, 19),
{
    proof {
        lemma_vesta_alpha();
        assert forall|i: int, j: int| 0 <= i < 3 && 0 <= j < 3 implies #[trigger] gcd(
            VESTA_P as nat,
            (cauchy_denominator(3, i, j) % (VESTA_P as int)) as nat,
        ) == 1 by {
            lemma_vesta_coprime((i + j + 3) as nat);
        }
    }
    build(VESTA_P, 3, 1, 5, 8, 56, 19)
}

proof fn lemma_s128b_coprime(d: nat)
    requires
        3 <= d <= 7,
    ensures
        gcd(S128B_P as nat, d) == 1,
{
    if d == 3 {
        assert(gcd(18446744073709551557, 3) == gcd(3, 2));
        assert(gcd(3, 2) == gcd(2, 1));
        assert(gcd(2, 1) == gcd(1, 0));
    } else if d == 4 {
        assert(gcd(18446744073709551557, 4) == gcd(4, 1));
        assert(gcd(4, 1) == gcd(1, 0));
    } else if d == 5 {
        assert(gcd(18446744073709551557, 5) == gcd(5, 2));
        assert(gcd(5, 2) == gcd(2, 1));
        assert(gcd(2, 1) == gcd(1, 0));
    } else if d == 6 {
        assert(gcd(18446744073709551557, 6) == gcd(6, 5));
        assert(gcd(6, 5) == gcd(5, 1));
        assert(gcd(5, 1) == gcd(1, 0));
    } else if d == 7 {
        assert(gcd(18446744073709551557, 7) == gcd(7, 6));
        assert(gcd(7, 6) == gcd(6, 1));
        assert(gcd(6, 1) == gcd(1, 0));
    }
}

proof fn lemma_s128b_alpha()
    ensures
        gcd(5, (S128B_P - 1) as nat) == 1,
{
    assert(gcd(5, 18446744073709551556) == gcd(18446744073709551556, 5));
    assert(gcd(18446744073709551556, 5) == gcd(5, 1));
    assert(gcd(5, 1) == gcd(1, 0));
}

proof fn lemma_sw_coprime(d: nat)
    requires
        3 <= d <= 25,
    ensures
        gcd(SW_P as nat, d) == 1,
{
    if d == 3 {
        assert(gcd(18446744069414584321, 3) == gcd(3, 1));
        assert(gcd(3, 1) == gcd(1, 0));
    } else if d == 4 {
        assert(gcd(18446744069414584321, 4) == gcd(4, 1));
        assert(gcd(4, 1) == gcd(1, 0));
    } else if d == 5 {
        assert(gcd(18446744069414584321, 5) == gcd(5, 1));
        assert(gcd(5, 1) == gcd(1, 0));
    } else if d == 6 {
        assert(gcd(18446744069414584321, 6) == gcd(6, 1));
        assert(gcd(6, 1) == gcd(1, 0));
    } else if d == 7 {
        assert(gcd(18446744069414584321, 7) == gcd(7, 6));
        assert(gcd(7, 6) == gcd(6, 1));
        assert(gcd(6, 1) == gcd(1, 0));
    } else if d == 8 {
        assert(gcd(18446744069414584321, 8) == gcd(8, 1));
        assert(gcd(8, 1) == gcd(1, 0));
    } else if d == 9 {
        assert(gcd(18446744069414584321, 9) == gcd(9, 4));
        assert(gcd(9, 4) == gcd(4, 1));
        assert(gcd(4, 1) == gcd(1, 0));
    } else if d == 10 {
        assert(gcd(18446744069414584321, 10) == gcd(10, 1));
        assert(gcd(10, 1) == gcd(1, 0));
    } else if d == 11 {
        assert(gcd(18446744069414584321, 11) == gcd(11, 2));
        assert(gcd(11, 2) == gcd(2, 1));
        assert(gcd(2, 1) == gcd(1, 0));
    } else if d == 12 {
        assert(gcd(18446744069414584321, 12) == gcd(12, 1));
        assert(gcd(12, 1) == gcd(1, 0));
    } else if d == 13 {
        assert(gcd(18446744069414584321, 13) == gcd(13, 8));
        assert(gcd(13, 8) == gcd(8, 5));
        assert(gcd(8, 5) == gcd(5, 3));
        assert(gcd(5, 3) == gcd(3, 2));
        assert(gcd(3, 2) == gcd(2, 1));
        assert(gcd(2, 1) == gcd(1, 0));
    } else if d == 14 {
        assert(gcd(18446744069414584321, 14) == gcd(14, 13));
        assert(gcd(14, 13) == gcd(13, 1));
        assert(gcd(13, 1) == gcd(1, 0));
    } else if d == 15 {
        assert(gcd(18446744069414584321, 15) == gcd(15, 1));
        assert(gcd(15, 1) == gcd(1, 0));
    } else if d == 16 {
        assert(gcd(18446744069414584321, 16) == gcd(16, 1));
        assert(gcd(16, 1) == gcd(1, 0));
    } else if d == 17 {
        assert(gcd(18446744069414584321, 17) == gcd(17, 1));
        assert(gcd(17, 1) == gcd(1, 0));
    } else if d == 18 {
        assert(gcd(18446744069414584321, 18) == gcd(18, 13));
        assert(gcd(18, 13) == gcd(13, 5));
        assert(gcd(13, 5) == gcd(5, 3));
        assert(gcd(5, 3) == gcd(3, 2));
        assert(gcd(3, 2) == gcd(2, 1));
        assert(gcd(2, 1) == gcd(1, 0));
    } else if d == 19 {
        assert(gcd(18446744069414584321, 19) == gcd(19, 12));
        assert(gcd(19, 12) == gcd(12, 7));
        assert(gcd(12, 7) == gcd(7, 5));
        assert(gcd(7, 5) == gcd(5, 2));
        assert(gcd(5, 2) == gcd(2, 1));
        assert(gcd(2, 1) == gcd(1, 0));
    } else if d == 20 {
        assert(gcd(18446744069414584321, 20) == gcd(20, 1));
        assert(gcd(20, 1) == gcd(1, 0));
    } else if d == 21 {
        assert(gcd(18446744069414584321, 21) == gcd(21, 13));
        assert(gcd(21, 13) == gcd(13, 8));
        assert(gcd(13, 8) == gcd(8, 5));
        assert(gcd(8, 5) == gcd(5, 3));
        assert(gcd(5, 3) == gcd(3, 2));
        assert(gcd(3, 2) == gcd(2, 1));
        assert(gcd(2, 1) == gcd(1, 0));
    } else if d == 22 {
        assert(gcd(18446744069414584321, 22) == gcd(22, 13));
        assert(gcd(22, 13) == gcd(13, 9));
        assert(gcd(13, 9) == gcd(9, 4));
        assert(gcd(9, 4) == gcd(4, 1));
        assert(gcd(4, 1) == gcd(1, 0));
    } else if d == 23 {
        assert(gcd(18446744069414584321, 23) == gcd(23, 18));
        assert(gcd(23, 18) == gcd(18, 5));
        assert(gcd(18, 5) == gcd(5, 3));
        assert(gcd(5, 3) == gcd(3, 2));
        assert(gcd(3, 2) == gcd(2, 1));
        assert(gcd(2, 1) == gcd(1, 0));
    } else if d == 24 {
        assert(gcd(18446744069414584321, 24) == gcd(24, 1));
        assert(gcd(24, 1) == gcd(1, 0));
    } else if d == 25 {
        assert(gcd(18446744069414584321, 25) == gcd(25, 21));
        assert(gcd(25, 21) == gcd(21, 4));
        assert(gcd(21, 4) == gcd(4, 1));
        assert(gcd(4, 1) == gcd(1, 0));
    }
}

proof fn lemma_sw_alpha()
    ensures
        gcd(7, (SW_P - 1) as nat) == 1,
{
    assert(gcd(7, 18446744069414584320) == gcd(18446744069414584320, 7));
    assert(gcd(18446744069414584320, 7) == gcd(7, 5));
    assert(gcd(7, 5) == gcd(5, 2));
    assert(gcd(5, 2) == gcd(2, 1));
    assert(gcd(2, 1) == gcd(1, 0));
}

proof fn lemma_pallas_coprime(d: nat)
    requires
        3 <= d <= 7,
    ensures
        gcd(PALLAS_P as nat, d) == 1,
{
    if d == 3 {
        assert(gcd(2305843009213693951, 3) == gcd(3, 1));
        assert(gcd(3, 1) == gcd(1, 0));
    } else if d == 4 {
        assert(gcd(2305843009213693951, 4) == gcd(4, 3));
        assert(gcd(4, 3) == gcd(3, 1));
        assert(gcd(3, 1) == gcd(1, 0));
    } else if d == 5 {
        assert(gcd(2305843009213693951, 5) == gcd(5, 1));
        assert(gcd(5, 1) == gcd(1, 0));
    } else if d == 6 {
        assert(gcd(2305843009213693951, 6) == gcd(6, 1));
        assert(gcd(6, 1) == gcd(1, 0));
    } else if d == 7 {
        assert(gcd(2305843009213693951, 7) == gcd(7, 1));
        assert(gcd(7, 1) == gcd(1, 0));
    }
}

proof fn lemma_pallas_alpha()
    ensures
        gcd(17, (PALLAS_P - 1) as nat) == 1,
{
    assert(gcd(17, 2305843009213693950) == gcd(2305843009213693950, 17));
    assert(gcd(2305843009213693950, 17) == gcd(17, 13));
    assert(gcd(17, 13) == gcd(13, 4));
    assert(gcd(13, 4) == gcd(4, 1));
    assert(gcd(4, 1) == gcd(1, 0));
}

proof fn lemma_vesta_coprime(d: nat)
    requires
        3 <= d <= 7,
    ensures
        gcd(VESTA_P as nat, d) == 1,
{
    if d == 3 {
        assert(gcd(2147483647, 3) == gcd(3, 1));
        assert(gcd(3, 1) == gcd(1, 0));
    } else if d == 4 {
        assert(gcd(2147483647, 4) == gcd(4, 3));
        assert(gcd(4, 3) == gcd(3, 1));
        assert(gcd(3, 1) == gcd(1, 0));
    } else if d == 5 {
        assert(gcd(2147483647, 5) == gcd(5, 2));
        assert(gcd(5, 2) == gcd(2, 1));
        assert(gcd(2, 1) == gcd(1, 0));
    } else if d == 6 {
        assert(gcd(2147483647, 6) == gcd(6, 1));
        assert(gcd(6, 1) == gcd(1, 0));
    } else if d == 7 {
        assert(gcd(2147483647, 7) == gcd(7, 1));
        assert(gcd(7, 1) == gcd(1, 0));
    }
}

proof fn lemma_vesta_alpha()
    ensures
        gcd(5, (VESTA_P - 1) as nat) == 1,
{
    assert(gcd(5, 2147483646) == gcd(2147483646, 5));
    assert(gcd(2147483646, 5) == gcd(5, 1));
    assert(gcd(5, 1) == gcd(1, 0));
}

} // verus!
