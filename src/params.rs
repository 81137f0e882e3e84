//! Parameter sets: everything that fixes one Poseidon instance.
use vstd::prelude::*;
use crate::field::{gcd, gcd_u64, Field};

verus! {

/// The failures this library reports.
#[derive(Clone, Copy, Debug, PartialEq, Eq, Structural)]
pub enum PoseidonError {
    /// A parameter set breaks one of its structural rules.
    MalformedParameters,
    /// A hash was asked for under a parameter set that is not well formed.
    InvalidInput,
    /// The zero element was to be inverted while deriving parameters.
    DivisionByZero,
}

/// An error that only building a parameter set can raise.
pub open spec fn is_build_error(e: PoseidonError) -> bool {
    e == PoseidonError::DivisionByZero || e == PoseidonError::MalformedParameters
}

/// One Poseidon instance over the prime field of modulus `p`.
///
/// `round_constants` holds `t` entries per round, round by round, for
/// `full_rounds + partial_rounds` rounds; `mds` is a `t` by `t` matrix.
/// The rate is `t - c`.
#[derive(Clone, Debug)]
pub struct ParamSet {
    pub p: u64,
    pub t: usize,
    pub c: usize,
    pub alpha: u64,
    pub full_rounds: usize,
    pub partial_rounds: usize,
    pub round_constants: Vec<u64>,
    pub mds: Vec<Vec<u64>>,
}

impl ParamSet {
    pub open spec fn rounds(&self) -> nat {
        (self.full_rounds + self.partial_rounds) as nat
    }

    pub open spec fn rate(&self) -> nat {
        (self.t - self.c) as nat
    }

    /// The table sizes and value ranges the permutation relies on.
    pub open spec fn shape_ok(&self) -> bool {
        &&& self.p >= 2
        &&& self.c >= 1
        &&& self.c < self.t
        &&& self.full_rounds % 2 == 0
        &&& self.round_constants@.len() == self.rounds() * self.t
        &&& forall|i: int|
            0 <= i < self.round_constants@.len() ==> #[trigger] self.round_constants@[i] < self.p
        &&& self.mds@.len() == self.t
        &&& forall|i: int| 0 <= i < self.t ==> (#[trigger] self.mds@[i])@.len() == self.t
        &&& forall|i: int, j: int|
            0 <= i < self.t && 0 <= j < self.t ==> #[trigger] self.mds@[i]@[j] < self.p
    }

    /// All the rules of a parameter set, the S-box exponent's included:
    /// `x -> x^alpha` is a bijection only when `gcd(alpha, p - 1) == 1`.
    pub open spec fn wf(&self) -> bool {
        &&& self.shape_ok()
        &&& gcd(self.alpha as nat, (self.p - 1) as nat) == 1
    }

    pub open spec fn field(&self) -> Field {
        Field { p: self.p }
    }

    /// Tells whether the parameter set keeps all its rules.
    pub fn check(&self) -> (r: bool)
        ensures
            r == self.wf(),
    {
        if self.p < 2 || self.c < 1 || self.c >= self.t || self.full_rounds % 2 != 0 {
            return false;
        }
        let len = self.round_constants.len();
        let rounds = match self.full_rounds.checked_add(self.partial_rounds) {
            Some(n) => n,
            None => {
                assert(self.rounds() * self.t > usize::MAX) by (nonlinear_arith)
                    requires
                        self.rounds() > usize::MAX,
                        self.t >= 1,
                ;
                return false;
            },
        };
        let total = match rounds.checked_mul(self.t) {
            Some(n) => n,
            None => {
                return false;
            },
        };
        if len != total {
            return false;
        }
        let mut i: usize = 0;
        while i < total
            invariant
                total == self.round_constants@.len(),
                i <= total,
                forall|j: int| 0 <= j < i ==> #[trigger] self.round_constants@[j] < self.p,
            decreases total - i,
        {
            if self.round_constants[i] >= self.p {
                assert(self.round_constants@[i as int] >= self.p);
                return false;
            }
            i = i + 1;
        }
        if self.mds.len() != self.t {
            return false;
        }
        let mut r: usize = 0;
        while r < self.t
            invariant
                self.mds@.len() == self.t,
                r <= self.t,
                forall|i: int| 0 <= i < r ==> (#[trigger] self.mds@[i])@.len() == self.t,
                forall|i: int, j: int|
                    0 <= i < r && 0 <= j < self.t ==> #[trigger] self.mds@[i]@[j] < self.p,
            decreases self.t - r,
        {
            let row = &self.mds[r];
            if row.len() != self.t {
                assert(self.mds@[r as int]@.len() != self.t);
                return false;
            }
            let mut j: usize = 0;
            while j < self.t
                invariant
                    r < self.t,
                    self.mds@.len() == self.t,
                    row@ == self.mds@[r as int]@,
                    row@.len() == self.t,
                    j <= self.t,
                    forall|k: int| 0 <= k < j ==> #[trigger] row@[k] < self.p,
                decreases self.t - j,
            {
                if row[j] >= self.p {
                    assert(self.mds@[r as int]@[j as int] >= self.p);
                    return false;
                }
                j = j + 1;
            }
            r = r + 1;
        }
        gcd_u64(self.alpha, self.p - 1) == 1
    }

    /// Builds a parameter set, refusing one that breaks any of its rules.
    pub fn new(
        p: u64,
        t: usize,
        c: usize,
        alpha: u64,
        full_rounds: usize,
        partial_rounds: usize,
        round_constants: Vec<u64>,
        mds: Vec<Vec<u64>>,
    ) -> (r: Result<ParamSet, PoseidonError>)
        ensures
            ({
                let ps = ParamSet {
                    p,
                    t,
                    c,
                    alpha,
                    full_rounds,
                    partial_rounds,
                    round_constants,
                    mds,
                };
                &&& ps.wf() ==> r == Ok::<ParamSet, PoseidonError>(ps)
                &&& !ps.wf() ==> r == Err::<ParamSet, PoseidonError>(
                    PoseidonError::MalformedParameters,
                )
            }),
    {
        let ps = ParamSet { p, t, c, alpha, full_rounds, partial_rounds, round_constants, mds };
        if ps.check() {
            Ok(ps)
        } else {
            Err(PoseidonError::MalformedParameters)
        }
    }
}

} // verus!
