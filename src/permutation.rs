//! The Poseidon permutation and the sponge built on it.
//!
//! Rounds run in the order: `full_rounds / 2` full rounds, then
//! `partial_rounds` partial rounds, then `full_rounds / 2` full rounds.
//! Round `k` adds the constants `round_constants[k * t .. k * t + t]`,
//! applies `x -> x^alpha` (to every position in a full round, to position 0
//! in a partial one) and multiplies the state by the MDS matrix.
//!
//! The sponge starts from the all-zero state. The input is padded with one
//! element `1` and then with zeros up to a multiple of the rate `r = t - c`;
//! each block of `r` elements is added into positions `0..r` and the state
//! is permuted. The digest is the first `r` positions of the last state.
use vstd::prelude::*;
use vstd::arithmetic::power::pow;
use vstd::arithmetic::div_mod::*;
use crate::field::Field;
use crate::params::{ParamSet, PoseidonError};

verus! {

/// A state of width `t` holding canonical residues.
pub open spec fn canonical(ps: &ParamSet, s: Seq<u64>) -> bool {
    &&& s.len() == ps.t
    &&& forall|i: int| 0 <= i < s.len() ==> #[trigger] s[i] < ps.p
}

pub open spec fn add_constants(ps: &ParamSet, s: Seq<u64>, k: nat) -> Seq<u64> {
    Seq::new(
        ps.t as nat,
        |i: int| ((s[i] + ps.round_constants@[k * ps.t + i]) % (ps.p as int)) as u64,
    )
}

pub open spec fn sbox(ps: &ParamSet, x: u64) -> u64 {
    (pow(x as int, ps.alpha as nat) % (ps.p as int)) as u64
}

pub open spec fn is_full_round(ps: &ParamSet, k: nat) -> bool {
    k < ps.full_rounds / 2 || k >= ps.full_rounds / 2 + ps.partial_rounds
}

pub open spec fn sbox_layer(ps: &ParamSet, s: Seq<u64>, k: nat) -> Seq<u64> {
    if is_full_round(ps, k) {
        Seq::new(s.len(), |i: int| sbox(ps, s[i]))
    } else {
        s.update(0, sbox(ps, s[0]))
    }
}

/// `sum_{j < n} row[j] * s[j]`.
pub open spec fn dot(row: Seq<u64>, s: Seq<u64>, n: nat) -> int
    decreases n,
{
    if n == 0 {
        0
    } else {
        dot(row, s, (n - 1) as nat) + row[n - 1] * s[n - 1]
    }
}

pub open spec fn mix(ps: &ParamSet, s: Seq<u64>) -> Seq<u64> {
    Seq::new(ps.t as nat, |i: int| (dot(ps.mds@[i]@, s, ps.t as nat) % (ps.p as int)) as u64)
}

pub open spec fn round(ps: &ParamSet, s: Seq<u64>, k: nat) -> Seq<u64> {
    mix(ps, sbox_layer(ps, add_constants(ps, s, k), k))
}

/// The state after the first `n` rounds.
pub open spec fn rounds_upto(ps: &ParamSet, s: Seq<u64>, n: nat) -> Seq<u64>
    decreases n,
{
    if n == 0 {
        s
    } else {
        round(ps, rounds_upto(ps, s, (n - 1) as nat), (n - 1) as nat)
    }
}

pub open spec fn permutation(ps: &ParamSet, s: Seq<u64>) -> Seq<u64> {
    rounds_upto(ps, s, ps.rounds())
}

/// Element `j` of the padded input: the input, then `1`, then zeros.
pub open spec fn padded_at(inputs: Seq<u64>, j: int) -> u64 {
    if j < inputs.len() {
        inputs[j]
    } else if j == inputs.len() {
        1
    } else {
        0
    }
}

/// Adds block `b` of the padded input into the rate positions.
pub open spec fn absorb_block(ps: &ParamSet, s: Seq<u64>, inputs: Seq<u64>, b: nat) -> Seq<u64> {
    Seq::new(
        ps.t as nat,
        |i: int|
            if i < ps.rate() {
                ((s[i] + padded_at(inputs, b * ps.rate() + i)) % (ps.p as int)) as u64
            } else {
                s[i]
            },
    )
}

/// The state after absorbing the first `n` blocks.
pub open spec fn absorb(ps: &ParamSet, inputs: Seq<u64>, n: nat) -> Seq<u64>
    decreases n,
{
    if n == 0 {
        Seq::new(ps.t as nat, |i: int| 0u64)
    } else {
        permutation(ps, absorb_block(ps, absorb(ps, inputs, (n - 1) as nat), inputs, (n - 1) as nat))
    }
}

/// The number of blocks of the padded input.
pub open spec fn block_count(ps: &ParamSet, inputs: Seq<u64>) -> nat {
    inputs.len() / ps.rate() + 1
}

pub open spec fn digest(ps: &ParamSet, inputs: Seq<u64>) -> Seq<u64> {
    absorb(ps, inputs, block_count(ps, inputs)).take(ps.rate() as int)
}

proof fn lemma_table_index(k: nat, n: nat, t: nat, i: nat)
    requires
        k < n,
        i < t,
    ensures
        k * t + i < n * t,
{
    assert(k * t + i < n * t) by (nonlinear_arith)
        requires
            k < n,
            i < t,
    ;
}

fn add_round_constants(ps: &ParamSet, s: &Vec<u64>, k: usize) -> (r: Vec<u64>)
    requires
        ps.shape_ok(),
        canonical(ps, s@),
        k < ps.rounds(),
    ensures
        r@ == add_constants(ps, s@, k as nat),
        canonical(ps, r@),
{
    let f = Field { p: ps.p };
    let total = ps.round_constants.len();
    let mut out: Vec<u64> = Vec::new();
    let mut i: usize = 0;
    while i < ps.t
        invariant
            ps.shape_ok(),
            canonical(ps, s@),
            k < ps.rounds(),
            total == ps.round_constants@.len(),
            f.p == ps.p,
            i <= ps.t,
            out@.len() == i,
            forall|j: int| 0 <= j < i ==> #[trigger] out@[j] == add_constants(ps, s@, k as nat)[j],
            forall|j: int| 0 <= j < i ==> #[trigger] out@[j] < ps.p,
        decreases ps.t - i,
    {
        proof {
            lemma_table_index(k as nat, ps.rounds(), ps.t as nat, i as nat);
        }
        let idx = k * ps.t + i;
        let v = f.add(s[i], ps.round_constants[idx]);
        out.push(v);
        i = i + 1;
    }
    assert(out@ =~= add_constants(ps, s@, k as nat));
    out
}

fn apply_sbox(ps: &ParamSet, s: &Vec<u64>, k: usize) -> (r: Vec<u64>)
    requires
        ps.shape_ok(),
        canonical(ps, s@),
    ensures
        r@ == sbox_layer(ps, s@, k as nat),
        canonical(ps, r@),
{
    let f = Field { p: ps.p };
    let half = ps.full_rounds / 2;
    let full = k < half || k - half >= ps.partial_rounds;
    let mut out: Vec<u64> = Vec::new();
    let mut i: usize = 0;
    while i < ps.t
        invariant
            ps.shape_ok(),
            canonical(ps, s@),
            f.p == ps.p,
            full == is_full_round(ps, k as nat),
            i <= ps.t,
            out@.len() == i,
            forall|j: int| 0 <= j < i ==> #[trigger] out@[j] == sbox_layer(ps, s@, k as nat)[j],
            forall|j: int| 0 <= j < i ==> #[trigger] out@[j] < ps.p,
        decreases ps.t - i,
    {
        if full || i == 0 {
            let v = f.pow(s[i], ps.alpha);
            out.push(v);
        } else {
            out.push(s[i]);
        }
        i = i + 1;
    }
    assert(out@ =~= sbox_layer(ps, s@, k as nat));
    out
}

fn row_times_state(ps: &ParamSet, row: &Vec<u64>, s: &Vec<u64>) -> (r: u64)
    requires
        ps.shape_ok(),
        canonical(ps, s@),
        row@.len() == ps.t,
        forall|j: int| 0 <= j < ps.t ==> #[trigger] row@[j] < ps.p,
    ensures
        r == dot(row@, s@, ps.t as nat) % (ps.p as int),
        r < ps.p,
{
    let f = Field { p: ps.p };
    let ghost p = ps.p as int;
    let mut acc: u64 = 0;
    let mut j: usize = 0;
    proof {
        lemma_small_mod(0, p as nat);
    }
    while j < ps.t
        invariant
            ps.shape_ok(),
            canonical(ps, s@),
            row@.len() == ps.t,
            forall|j: int| 0 <= j < ps.t ==> #[trigger] row@[j] < ps.p,
            f.p == ps.p,
            p == ps.p,
            j <= ps.t,
            acc < ps.p,
            acc == dot(row@, s@, j as nat) % p,
        decreases ps.t - j,
    {
        let m = f.mul(row[j], s[j]);
        let ghost prev = acc;
        acc = f.add(acc, m);
        proof {
            let x = row@[j as int] * s@[j as int];
            assert(dot(row@, s@, (j + 1) as nat) == dot(row@, s@, j as nat) + x);
            lemma_add_mod_noop(dot(row@, s@, j as nat), x, p);
        }
        j = j + 1;
    }
    acc
}

fn mix_state(ps: &ParamSet, s: &Vec<u64>) -> (r: Vec<u64>)
    requires
        ps.shape_ok(),
        canonical(ps, s@),
    ensures
        r@ == mix(ps, s@),
        canonical(ps, r@),
{
    let mut out: Vec<u64> = Vec::new();
    let mut i: usize = 0;
    while i < ps.t
        invariant
            ps.shape_ok(),
            canonical(ps, s@),
            i <= ps.t,
            out@.len() == i,
            forall|j: int| 0 <= j < i ==> #[trigger] out@[j] == mix(ps, s@)[j],
            forall|j: int| 0 <= j < i ==> #[trigger] out@[j] < ps.p,
        decreases ps.t - i,
    {
        let row = &ps.mds[i];
        assert forall|j: int| 0 <= j < ps.t implies #[trigger] row@[j] < ps.p by {
            assert(ps.mds@[i as int]@[j] < ps.p);
        }
        let v = row_times_state(ps, row, s);
        out.push(v);
        i = i + 1;
    }
    assert(out@ =~= mix(ps, s@));
    out
}

/// Applies the full round sequence to a state of width `t`.
pub fn permute(ps: &ParamSet, state: &Vec<u64>) -> (r: Vec<u64>)
    requires
        ps.shape_ok(),
        canonical(ps, state@),
    ensures
        r@ == permutation(ps, state@),
        canonical(ps, r@),
{
    let total = ps.round_constants.len();
    assert(ps.rounds() <= total) by (nonlinear_arith)
        requires
            total == ps.rounds() * ps.t,
            ps.t >= 1,
    ;
    let n = ps.full_rounds + ps.partial_rounds;
    let mut s: Vec<u64> = state.clone();
    assert(s@ =~= state@);
    let mut k: usize = 0;
    while k < n
        invariant
            ps.shape_ok(),
            n == ps.rounds(),
            k <= n,
            canonical(ps, s@),
            s@ == rounds_upto(ps, state@, k as nat),
        decreases n - k,
    {
        let a = add_round_constants(ps, &s, k);
        let b = apply_sbox(ps, &a, k);
        s = mix_state(ps, &b);
        k = k + 1;
    }
    s
}

/// Hashes a sequence of field elements under a parameter set.
///
/// A parameter set that breaks its rules gives `InvalidInput`; otherwise
/// the digest is the `r = t - c` elements described in the module notes.
pub fn hash(inputs: &[u64], ps: &ParamSet) -> (r: Result<Vec<u64>, PoseidonError>)
    requires
        inputs@.len() < usize::MAX,
        forall|i: int| 0 <= i < inputs@.len() ==> #[trigger] inputs@[i] < ps.p,
    ensures
        !ps.wf() ==> r == Err::<Vec<u64>, PoseidonError>(PoseidonError::InvalidInput),
        ps.wf() ==> (r matches Ok(d) && d@ == digest(ps, inputs@)),
        ps.wf() ==> digest(ps, inputs@).len() == ps.rate(),
{
    if !ps.check() {
        return Err(PoseidonError::InvalidInput);
    }
    let f = Field { p: ps.p };
    let rate = ps.t - ps.c;
    let len = inputs.len();
    let blocks = len / rate + 1;
    let mut s: Vec<u64> = Vec::new();
    let mut i: usize = 0;
    while i < ps.t
        invariant
            ps.wf(),
            i <= ps.t,
            s@.len() == i,
            forall|j: int| 0 <= j < i ==> #[trigger] s@[j] == 0,
        decreases ps.t - i,
    {
        s.push(0);
        i = i + 1;
    }
    assert(s@ =~= absorb(ps, inputs@, 0));
    let mut b: usize = 0;
    while b < blocks
        invariant
            ps.wf(),
            f.p == ps.p,
            rate == ps.rate(),
            len == inputs@.len(),
            blocks == block_count(ps, inputs@),
            forall|i: int| 0 <= i < inputs@.len() ==> #[trigger] inputs@[i] < ps.p,
            b <= blocks,
            canonical(ps, s@),
            s@ == absorb(ps, inputs@, b as nat),
        decreases blocks - b,
    {
        proof {
            lemma_block_start(len as nat, rate as nat, b as nat);
        }
        let base = b * rate;
        let mut m: Vec<u64> = Vec::new();
        let mut i: usize = 0;
        while i < ps.t
            invariant
                ps.wf(),
                f.p == ps.p,
                rate == ps.rate(),
                len == inputs@.len(),
                forall|i: int| 0 <= i < inputs@.len() ==> #[trigger] inputs@[i] < ps.p,
                base == b * rate,
                base <= len,
                canonical(ps, s@),
                i <= ps.t,
                m@.len() == i,
                forall|j: int|
                    0 <= j < i ==> #[trigger] m@[j] == absorb_block(ps, s@, inputs@, b as nat)[j],
                forall|j: int| 0 <= j < i ==> #[trigger] m@[j] < ps.p,
            decreases ps.t - i,
        {
            if i < rate {
                let x: u64 = if i < len - base {
                    inputs[base + i]
                } else if i == len - base {
                    1
                } else {
                    0
                };
                assert(x == padded_at(inputs@, b * ps.rate() + i));
                let v = f.add(s[i], x);
                m.push(v);
            } else {
                m.push(s[i]);
            }
            i = i + 1;
        }
        assert(m@ =~= absorb_block(ps, s@, inputs@, b as nat));
        s = permute(ps, &m);
        b = b + 1;
    }
    let mut out: Vec<u64> = Vec::new();
    let mut i: usize = 0;
    while i < rate
        invariant
            ps.wf(),
            rate == ps.rate(),
            canonical(ps, s@),
            s@ == absorb(ps, inputs@, blocks as nat),
            blocks == block_count(ps, inputs@),
            i <= rate,
            out@.len() == i,
            forall|j: int| 0 <= j < i ==> #[trigger] out@[j] == s@[j],
        decreases rate - i,
    {
        out.push(s[i]);
        i = i + 1;
    }
    assert(out@ =~= digest(ps, inputs@));
    Ok(out)
}

proof fn lemma_block_start(len: nat, rate: nat, b: nat)
    requires
        rate >= 1,
        b < len / rate + 1,
    ensures
        b * rate <= len,
{
    lemma_fundamental_div_mod(len as int, rate as int);
    assert(b * rate <= len) by (nonlinear_arith)
        requires
            b <= len / rate,
            len == rate * (len / rate) + len % rate,
            len % rate >= 0,
    ;
}

} // verus!
