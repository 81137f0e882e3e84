//! The Poseidon permutation and sponge hash over prime fields.
//!
//! Field elements are `u64` residues modulo the prime of a parameter set.
//! `hash_<name>` hashes a sequence of elements under the named instance of
//! [`instances`]; `hash_bytes_<name>` does the same on the little-endian
//! byte encoding and truncates the encoded digest to a caller's capacity.
//!
//! The named instances are stand-ins over primes below `2^64` with tables
//! derived by this library; they are not the published parameter sets of
//! the curves whose names they carry, whose fields are about 255 bits wide.
use vstd::prelude::*;

pub mod codec;
pub mod field;
pub mod instances;
pub mod laws;
pub mod params;
pub mod permutation;

use crate::codec::{decode_all, elem_width_spec, encode_all, felts_from_u8s, u8s_from_felts};
use crate::field::Field;
use crate::instances::{is_instance, PALLAS_P, S128B_P, SW_P, VESTA_P};
use crate::params::{ParamSet, PoseidonError};
use crate::permutation::{digest, hash};

verus! {

/// Hashes under a freshly built parameter set, passing on a build failure.
fn hash_built(inputs: &[u64], built: Result<ParamSet, PoseidonError>) -> (r: Result<
    Vec<u64>,
    PoseidonError,
>)
    requires
        inputs@.len() < usize::MAX,
        built matches Ok(ps) ==> ps.wf() && forall|i: int|
            0 <= i < inputs@.len() ==> #[trigger] inputs@[i] < ps.p,
    ensures
        r matches Ok(d) ==> built matches Ok(ps) && d@ == digest(&ps, inputs@),
        built matches Ok(ps) ==> r is Ok,
        built matches Err(e) ==> r == Err::<Vec<u64>, PoseidonError>(e),
{
    match built {
        Ok(ps) => hash(inputs, &ps),
        Err(e) => Err(e),
    }
}

/// Hashes under the `s128b` instance.
pub fn hash_s128b(inputs: &[u64]) -> (r: Result<Vec<u64>, PoseidonError>)
    requires
        inputs@.len() < usize::MAX,
        forall|i: int| 0 <= i < inputs@.len() ==> #[trigger] inputs@[i] < S128B_P,
    ensures
        r matches Ok(d) && exists|ps: ParamSet|
            is_instance(&ps, S128B_P, 3, 1, 5, 8, 56, 7) && d@ == digest(&ps, inputs@),
{
    let built = instances::s128b();
    hash_built(inputs, built)
}

/// Hashes under the `sw2` instance.
pub fn hash_sw2(inputs: &[u64]) -> (r: Result<Vec<u64>, PoseidonError>)
    requires
        inputs@.len() < usize::MAX,
        forall|i: int| 0 <= i < inputs@.len() ==> #[trigger] inputs@[i] < SW_P,
    ensures
        r matches Ok(d) && exists|ps: ParamSet|
            is_instance(&ps, SW_P, 3, 1, 7, 8, 22, 3) && d@ == digest(&ps, inputs@),
{
    let built = instances::sw2();
    hash_built(inputs, built)
}

/// Hashes under the `sw3` instance.
pub fn hash_sw3(inputs: &[u64]) -> (r: Result<Vec<u64>, PoseidonError>)
    requires
        inputs@.len() < usize::MAX,
        forall|i: int| 0 <= i < inputs@.len() ==> #[trigger] inputs@[i] < SW_P,
    ensures
        r matches Ok(d) && exists|ps: ParamSet|
            is_instance(&ps, SW_P, 4, 1, 7, 8, 22, 5) && d@ == digest(&ps, inputs@),
{
    let built = instances::sw3();
    hash_built(inputs, built)
}

/// Hashes under the `sw4` instance.
pub fn hash_sw4(inputs: &[u64]) -> (r: Result<Vec<u64>, PoseidonError>)
    requires
        inputs@.len() < usize::MAX,
        forall|i: int| 0 <= i < inputs@.len() ==> #[trigger] inputs@[i] < SW_P,
    ensures
        r matches Ok(d) && exists|ps: ParamSet|
            is_instance(&ps, SW_P, 5, 1, 7, 8, 22, 11) && d@ == digest(&ps, inputs@),
{
    let built = instances::sw4();
    hash_built(inputs, built)
}

/// Hashes under the `sw8` instance.
pub fn hash_sw8(inputs: &[u64]) -> (r: Result<Vec<u64>, PoseidonError>)
    requires
        inputs@.len() < usize::MAX,
        forall|i: int| 0 <= i < inputs@.len() ==> #[trigger] inputs@[i] < SW_P,
    ensures
        r matches Ok(d) && exists|ps: ParamSet|
            is_instance(&ps, SW_P, 9, 1, 7, 8, 22, 13) && d@ == digest(&ps, inputs@),
{
    let built = instances::sw8();
    hash_built(inputs, built)
}

/// Hashes under the `pallas` instance.
pub fn hash_pallas(inputs: &[u64]) -> (r: Result<Vec<u64>, PoseidonError>)
    requires
        inputs@.len() < usize::MAX,
        forall|i: int| 0 <= i < inputs@.len() ==> #[trigger] inputs@[i] < PALLAS_P,
    ensures
        r matches Ok(d) && exists|ps: ParamSet|
            is_instance(&ps, PALLAS_P, 3, 1, 17, 8, 56, 17) && d@ == digest(&ps, inputs@),
{
    let built = instances::pallas();
    hash_built(inputs, built)
}

/// Hashes under the `vesta` instance.
pub fn hash_vesta(inputs: &[u64]) -> (r: Result<Vec<u64>, PoseidonError>)
    requires
        inputs@.len() < usize::MAX,
        forall|i: int| 0 <= i < inputs@.len() ==> #[trigger] inputs@[i] < VESTA_P,
    ensures
        r matches Ok(d) && exists|ps: ParamSet|
            is_instance(&ps, VESTA_P, 3, 1, 5, 8, 56, 19) && d@ == digest(&ps, inputs@),
{
    let built = instances::vesta();
    hash_built(inputs, built)
}

/// The encoded digest of the decoded input, before truncation.
pub open spec fn encoded_digest(ps: &ParamSet, input: Seq<u8>) -> Seq<u8> {
    let w = elem_width_spec(ps.p as nat);
    encode_all(w, digest(ps, decode_all(ps.p as nat, w, input)))
}

pub open spec fn min(a: int, b: int) -> int {
    if a < b {
        a
    } else {
        b
    }
}

/// Decodes `input`, hashes it, encodes the digest and keeps its first
/// `min(encoded length, output_len)` bytes. A shorter result than the
/// encoded digest is the only sign of truncation.
pub fn hash_bytes(ps: &ParamSet, input: &[u8], output_len: usize) -> (r: Result<Vec<u8>, PoseidonError>)
    requires
        input@.len() < usize::MAX,
    ensures
        !ps.wf() ==> r == Err::<Vec<u8>, PoseidonError>(PoseidonError::InvalidInput),
        ps.wf() ==> r is Ok,
        ps.wf() ==> encoded_digest(ps, input@).len() == ps.rate() * elem_width_spec(ps.p as nat),
        r matches Ok(out) ==> {
            let full = encoded_digest(ps, input@);
            &&& out@ == full.take(min(full.len() as int, output_len as int))
            &&& out@.len() == min(full.len() as int, output_len as int)
            &&& forall|i: int| 0 <= i < out@.len() ==> #[trigger] out@[i] == full[i]
        },
{
    if !ps.check() {
        return Err(PoseidonError::InvalidInput);
    }
    let f = Field::new(ps.p);
    let elems = felts_from_u8s(&f, input);
    proof {
        let w = elem_width_spec(ps.p as nat);
        crate::codec::lemma_width_exists(ps.p as nat);
        assert(input@.len() / w <= input@.len()) by (nonlinear_arith)
            requires
                w >= 1,
        ;
    }
    let d = match hash(elems.as_slice(), ps) {
        Ok(d) => d,
        Err(e) => {
            return Err(e);
        },
    };
    let full = u8s_from_felts(&f, d.as_slice());
    proof {
        crate::codec::lemma_encode_all_len(elem_width_spec(ps.p as nat), d@);
    }
    let n = if full.len() < output_len {
        full.len()
    } else {
        output_len
    };
    let mut out: Vec<u8> = Vec::new();
    let mut i: usize = 0;
    while i < n
        invariant
            n <= full@.len(),
            i <= n,
            out@ == full@.take(i as int),
        decreases n - i,
    {
        out.push(full[i]);
        i = i + 1;
        assert(out@ =~= full@.take(i as int));
    }
    Ok(out)
}

/// Byte-level hash under the `s128b` instance.
pub fn hash_bytes_s128b(input: &[u8], output_len: usize) -> (r: Result<Vec<u8>, PoseidonError>)
    requires
        input@.len() < usize::MAX,
    ensures
        r matches Ok(out) && exists|ps: ParamSet|
            is_instance(&ps, S128B_P, 3, 1, 5, 8, 56, 7) && {
                let full = encoded_digest(&ps, input@);
                out@ == full.take(min(full.len() as int, output_len as int))
            },
{
    match instances::s128b() {
        Ok(ps) => hash_bytes(&ps, input, output_len),
        Err(e) => Err(e),
    }
}

/// Byte-level hash under the `sw2` instance.
pub fn hash_bytes_sw2(input: &[u8], output_len: usize) -> (r: Result<Vec<u8>, PoseidonError>)
    requires
        input@.len() < usize::MAX,
    ensures
        r matches Ok(out) && exists|ps: ParamSet|
            is_instance(&ps, SW_P, 3, 1, 7, 8, 22, 3) && {
                let full = encoded_digest(&ps, input@);
                out@ == full.take(min(full.len() as int, output_len as int))
            },
{
    match instances::sw2() {
        Ok(ps) => hash_bytes(&ps, input, output_len),
        Err(e) => Err(e),
    }
}

} // verus!
