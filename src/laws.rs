//! Laws that relate the library's operations to one another.
use vstd::prelude::*;
use vstd::arithmetic::div_mod::*;
use crate::codec::{decode_elem, elem_width_spec, le_bytes, lemma_le_value_of_bytes, lemma_width_exists};
use crate::field::{gcd, is_prime};
use crate::params::ParamSet;
use crate::instances::{cauchy_denominator, is_instance};
use crate::permutation::{absorb, absorb_block, add_constants, digest, mix, permutation, round, rounds_upto};

verus! {

/// An element plus its difference from zero is zero, and so is an element
/// plus its negation: `add(a, sub(0, a)) == 0` and `add(a, neg(a)) == 0`.
pub proof fn lemma_add_negation_is_zero(p: u64, a: u64)
    requires
        p >= 2,
        a < p,
    ensures
        (a + (0 - a) % (p as int)) % (p as int) == 0,
        (a + (p - a) % (p as int)) % (p as int) == 0,
{
    let m = p as int;
    lemma_add_mod_noop_right(a as int, 0 - a, m);
    lemma_add_mod_noop_right(a as int, m - a, m);
    lemma_mod_self_0(m);
    lemma_small_mod(0, p as nat);
}

proof fn lemma_gcd_divides(a: nat, b: nat)
    requires
        a > 0 || b > 0,
    ensures
        gcd(a, b) > 0,
        a % gcd(a, b) == 0,
        b % gcd(a, b) == 0,
    decreases b,
{
    if b == 0 {
        lemma_mod_self_0(a as int);
        lemma_small_mod(0, a);
    } else {
        let r = a % b;
        lemma_gcd_divides(b, r);
        let g = gcd(b, r);
        assert(gcd(a, b) == g);
        let q = a / b;
        lemma_fundamental_div_mod(a as int, b as int);
        lemma_fundamental_div_mod(b as int, g as int);
        lemma_fundamental_div_mod(r as int, g as int);
        let m = b / g;
        let n = r / g;
        assert(a == g * (m * q + n)) by (nonlinear_arith)
            requires
                a == b * q + r,
                b == g * m + 0,
                r == g * n + 0,
        ;
        lemma_mod_multiples_basic((m * q + n) as int, g as int);
        assert(g * (m * q + n) == (m * q + n) * g) by (nonlinear_arith);
    }
}

/// In a prime field every nonzero element shares no factor with the
/// modulus, so `invert` returns its inverse and never fails on it.
pub proof fn lemma_nonzero_invertible_in_prime_field(p: u64, a: u64)
    requires
        is_prime(p as nat),
        0 < a < p,
    ensures
        gcd(p as nat, a as nat) == 1,
{
    let g = gcd(p as nat, a as nat);
    let ai = a as int;
    let gi = g as int;
    lemma_gcd_divides(p as nat, a as nat);
    lemma_fundamental_div_mod(ai, gi);
    assert(gi <= ai) by (nonlinear_arith)
        requires
            ai == gi * (ai / gi) + 0,
            ai > 0,
            gi > 0,
    ;
    if g > 1 {
        assert((p as nat) % g != 0);
    }
}

/// Encoding a canonical element and decoding it again gives it back.
pub proof fn lemma_decode_encode(p: u64, x: u64)
    requires
        p >= 2,
        x < p,
    ensures
        decode_elem(p as nat, le_bytes(x as nat, elem_width_spec(p as nat))) == x,
{
    let w = elem_width_spec(p as nat);
    lemma_width_exists(p as nat);
    lemma_le_value_of_bytes(x as nat, w);
    lemma_small_mod(x as nat, p as nat);
}

/// Decoding one element's worth of bytes, encoding the result and decoding
/// again gives the first decoding back: one reduction makes it stable.
pub proof fn lemma_decode_encode_decode(p: u64, b: Seq<u8>)
    requires
        p >= 2,
        b.len() == elem_width_spec(p as nat),
    ensures
        decode_elem(p as nat, le_bytes(decode_elem(p as nat, b) as nat, elem_width_spec(p as nat)))
            == decode_elem(p as nat, b),
{
    let x = decode_elem(p as nat, b);
    lemma_decode_encode(p, x);
}

/// The digest is a function of the parameter set and the input alone.
pub proof fn lemma_hash_deterministic(ps: &ParamSet, a: Seq<u64>, b: Seq<u64>)
    requires
        a == b,
    ensures
        digest(ps, a) == digest(ps, b),
{
}

/// The empty input is one padding block: the digest is the rate part of
/// the permutation of the state `[1, 0, ..., 0]`.
pub proof fn lemma_empty_input_digest(ps: &ParamSet)
    requires
        ps.wf(),
    ensures
        digest(ps, Seq::<u64>::empty()) == permutation(
            ps,
            Seq::new(ps.t as nat, |i: int| if i == 0 { 1u64 } else { 0u64 }),
        ).take(ps.rate() as int),
{
    let e = Seq::<u64>::empty();
    let start = Seq::new(ps.t as nat, |i: int| if i == 0 { 1u64 } else { 0u64 });
    lemma_small_mod(1, ps.p as nat);
    lemma_small_mod(0, ps.p as nat);
    assert(absorb_block(ps, absorb(ps, e, 0), e, 0) =~= start);
    assert(absorb(ps, e, 1) == permutation(ps, start));
}

/// Two parameter sets whose fields have the same views.
pub open spec fn same_view(a: &ParamSet, b: &ParamSet) -> bool {
    &&& a.p == b.p
    &&& a.t == b.t
    &&& a.c == b.c
    &&& a.alpha == b.alpha
    &&& a.full_rounds == b.full_rounds
    &&& a.partial_rounds == b.partial_rounds
    &&& a.round_constants@ == b.round_constants@
    &&& forall|i: int| 0 <= i < a.t ==> #[trigger] a.mds@[i]@ == b.mds@[i]@
}

proof fn lemma_rounds_same(a: &ParamSet, b: &ParamSet, s: Seq<u64>, n: nat)
    requires
        same_view(a, b),
    ensures
        rounds_upto(a, s, n) == rounds_upto(b, s, n),
    decreases n,
{
    if n > 0 {
        let k = (n - 1) as nat;
        lemma_rounds_same(a, b, s, k);
        let x = rounds_upto(a, s, k);
        assert(add_constants(a, x, k) =~= add_constants(b, x, k));
        let z = add_constants(a, x, k);
        let y = crate::permutation::sbox_layer(a, z, k);
        assert(y =~= crate::permutation::sbox_layer(b, z, k));
        assert(mix(a, y) =~= mix(b, y));
        assert(round(a, x, k) == round(b, x, k));
    }
}

proof fn lemma_absorb_same(a: &ParamSet, b: &ParamSet, x: Seq<u64>, n: nat)
    requires
        same_view(a, b),
    ensures
        absorb(a, x, n) == absorb(b, x, n),
    decreases n,
{
    if n > 0 {
        let k = (n - 1) as nat;
        lemma_absorb_same(a, b, x, k);
        let s = absorb(a, x, k);
        assert(absorb_block(a, s, x, k) =~= absorb_block(b, s, x, k));
        lemma_rounds_same(a, b, absorb_block(a, s, x, k), a.rounds());
    } else {
        assert(absorb(a, x, 0) =~= absorb(b, x, 0));
    }
}

proof fn lemma_inverse_unique(p: int, d: int, x: int, y: int)
    requires
        p > 0,
        0 <= x < p,
        0 <= y < p,
        (x * d) % p == 1,
        (y * d) % p == 1,
    ensures
        x == y,
{
    lemma_mul_mod_noop_right(x, y * d, p);
    lemma_mul_mod_noop_right(y, x * d, p);
    assert(x * (y * d) == y * (x * d)) by (nonlinear_arith);
    lemma_small_mod(x as nat, p as nat);
    lemma_small_mod(y as nat, p as nat);
}

/// A named instance is determined by its description: any two parameter
/// sets built from it give the same digest of every input, so repeated
/// calls of one `hash_<name>` on the same input return the same digest.
pub proof fn lemma_instance_digest_unique(
    a: &ParamSet,
    b: &ParamSet,
    p: u64,
    t: usize,
    c: usize,
    alpha: u64,
    full_rounds: usize,
    partial_rounds: usize,
    g: u64,
    x: Seq<u64>,
)
    requires
        is_instance(a, p, t, c, alpha, full_rounds, partial_rounds, g),
        is_instance(b, p, t, c, alpha, full_rounds, partial_rounds, g),
    ensures
        digest(a, x) == digest(b, x),
{
    assert forall|i: int| 0 <= i < a.t implies #[trigger] a.mds@[i]@ == b.mds@[i]@ by {
        assert forall|j: int| 0 <= j < t implies a.mds@[i]@[j] == b.mds@[i]@[j] by {
            lemma_inverse_unique(
                p as int,
                cauchy_denominator(t as nat, i, j),
                a.mds@[i]@[j] as int,
                b.mds@[i]@[j] as int,
            );
        }
        assert(a.mds@[i]@ =~= b.mds@[i]@);
    }
    lemma_absorb_same(a, b, x, crate::permutation::block_count(a, x));
}

} // verus!
