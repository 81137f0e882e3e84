//! Conversion between field elements and little-endian byte strings.
//!
//! Each element takes `w` bytes, the modulus's bit length rounded up to
//! whole bytes (the least `w` with `p < 256^w`). Decoding reduces the
//! integer read modulo `p`, so it never fails, and a byte string whose
//! value is `p` or more does not come back unchanged from a round trip.
//! A trailing group shorter than `w` bytes is dropped.
use vstd::prelude::*;
use vstd::arithmetic::div_mod::*;
use crate::field::Field;

verus! {

pub open spec fn pow256(w: nat) -> nat
    decreases w,
{
    if w == 0 {
        1
    } else {
        256 * pow256((w - 1) as nat)
    }
}

/// The integer that a little-endian byte string stands for.
pub open spec fn le_value(b: Seq<u8>) -> nat
    decreases b.len(),
{
    if b.len() == 0 {
        0
    } else {
        (b[0] + 256 * le_value(b.subrange(1, b.len() as int))) as nat
    }
}

/// The `w` low bytes of `x`, least significant first.
pub open spec fn le_bytes(x: nat, w: nat) -> Seq<u8>
    decreases w,
{
    if w == 0 {
        Seq::empty()
    } else {
        seq![(x % 256) as u8] + le_bytes(x / 256, (w - 1) as nat)
    }
}

/// The least `w` with `p < 256^w`.
pub open spec fn is_width(p: nat, w: nat) -> bool {
    &&& w >= 1
    &&& p < pow256(w)
    &&& p >= pow256((w - 1) as nat)
}

pub open spec fn decode_elem(p: nat, b: Seq<u8>) -> u64 {
    (le_value(b) % p) as u64
}

/// Every complete group of `w` bytes, decoded.
pub open spec fn decode_all(p: nat, w: nat, b: Seq<u8>) -> Seq<u64> {
    Seq::new(
        b.len() / w,
        |k: int| decode_elem(p, b.subrange(k * w, k * w + w)),
    )
}

/// The encodings of all elements, one after the other.
pub open spec fn encode_all(w: nat, xs: Seq<u64>) -> Seq<u8>
    decreases xs.len(),
{
    if xs.len() == 0 {
        Seq::empty()
    } else {
        encode_all(w, xs.drop_last()) + le_bytes(xs.last() as nat, w)
    }
}

pub proof fn lemma_le_bytes_len(x: nat, w: nat)
    ensures
        le_bytes(x, w).len() == w,
    decreases w,
{
    if w > 0 {
        lemma_le_bytes_len(x / 256, (w - 1) as nat);
    }
}

pub proof fn lemma_le_value_of_bytes(x: nat, w: nat)
    requires
        x < pow256(w),
    ensures
        le_value(le_bytes(x, w)) == x,
    decreases w,
{
    if w > 0 {
        let rest = le_bytes(x / 256, (w - 1) as nat);
        lemma_le_value_of_bytes(x / 256, (w - 1) as nat);
        lemma_le_bytes_len(x / 256, (w - 1) as nat);
        let b = le_bytes(x, w);
        assert(b.subrange(1, b.len() as int) =~= rest);
    }
}

pub proof fn lemma_encode_all_len(w: nat, xs: Seq<u64>)
    ensures
        encode_all(w, xs).len() == xs.len() * w,
    decreases xs.len(),
{
    if xs.len() > 0 {
        lemma_encode_all_len(w, xs.drop_last());
        lemma_le_bytes_len(xs.last() as nat, w);
        assert((xs.len() - 1) * w + w == xs.len() * w) by (nonlinear_arith);
    }
}

/// The number of bytes per element for the modulus `p`.
pub fn elem_width(p: u64) -> (w: usize)
    requires
        p >= 2,
    ensures
        is_width(p as nat, w as nat),
        w <= 8,
{
    let mut w: usize = 1;
    let mut bound: u128 = 256;
    assert(pow256(8) == 0x1_0000_0000_0000_0000 && pow256(1) == 256 && pow256(0) == 1) by {
        reveal_with_fuel(pow256, 9);
    }
    while (p as u128) >= bound
        invariant
            1 <= w <= 8,
            bound == pow256(w as nat),
            p >= pow256((w - 1) as nat),
            pow256(8) == 0x1_0000_0000_0000_0000,
        decreases 8 - w,
    {
        w = w + 1;
        bound = bound * 256;
    }
    w
}

/// The `w`-byte encoding of a field element.
pub fn encode_elem(x: u64, w: usize) -> (r: Vec<u8>)
    requires
        x < pow256(w as nat),
    ensures
        r@ == le_bytes(x as nat, w as nat),
        le_value(r@) == x,
        r@.len() == w,
{
    let mut out: Vec<u8> = Vec::new();
    let mut v: u64 = x;
    let mut i: usize = 0;
    while i < w
        invariant
            i <= w,
            out@ + le_bytes(v as nat, (w - i) as nat) == le_bytes(x as nat, w as nat),
        decreases w - i,
    {
        let byte = (v % 256) as u8;
        let ghost rest = le_bytes((v / 256) as nat, (w - i - 1) as nat);
        assert(out@.push(byte) + rest =~= out@ + le_bytes(v as nat, (w - i) as nat));
        out.push(byte);
        v = v / 256;
        i = i + 1;
    }
    assert(out@ =~= out@ + le_bytes(v as nat, 0));
    proof {
        lemma_le_value_of_bytes(x as nat, w as nat);
        lemma_le_bytes_len(x as nat, w as nat);
    }
    out
}

/// Decodes `b[start .. start + w]`, reducing modulo `p`.
pub fn decode_elem_at(f: &Field, b: &[u8], start: usize, w: usize) -> (r: u64)
    requires
        f.wf(),
        w <= 8,
        start + w <= b@.len(),
    ensures
        r == decode_elem(f.p as nat, b@.subrange(start as int, start + w)),
        r < f.p,
{
    let blen = b.len();
    let mut acc: u128 = 0;
    let mut i: usize = w;
    assert(pow256(8) == 0x1_0000_0000_0000_0000) by {
        reveal_with_fuel(pow256, 9);
    }
    while i > 0
        invariant
            i <= w <= 8,
            blen == b@.len(),
            start + w <= b@.len(),
            acc == le_value(b@.subrange(start + i, start + w)),
            acc < pow256((w - i) as nat),
            pow256((w - i) as nat) <= pow256(8),
            pow256(8) == 0x1_0000_0000_0000_0000,
        decreases i,
    {
        let ghost tail = b@.subrange(start + i, start + w);
        let ghost next = b@.subrange(start + i - 1, start + w);
        assert(next.subrange(1, next.len() as int) =~= tail);
        proof {
            lemma_pow256_mono((w - i + 1) as nat, 8);
        }
        acc = acc * 256 + b[start + i - 1] as u128;
        i = i - 1;
    }
    let v = acc as u64;
    f.reduce(v)
}

proof fn lemma_pow256_mono(a: nat, b: nat)
    requires
        a <= b,
    ensures
        pow256(a) <= pow256(b),
    decreases b,
{
    if a < b {
        lemma_pow256_mono(a, (b - 1) as nat);
    }
}

/// Decodes every complete `w`-byte group of `b`.
pub fn felts_from_u8s(f: &Field, b: &[u8]) -> (r: Vec<u64>)
    requires
        f.wf(),
    ensures
        r@ == decode_all(f.p as nat, elem_width_spec(f.p as nat), b@),
        forall|i: int| 0 <= i < r@.len() ==> #[trigger] r@[i] < f.p,
{
    let w = elem_width(f.p);
    proof {
        lemma_width_unique(f.p as nat, w as nat);
    }
    let n = b.len() / w;
    let mut out: Vec<u64> = Vec::new();
    let mut k: usize = 0;
    while k < n
        invariant
            f.wf(),
            1 <= w <= 8,
            w == elem_width_spec(f.p as nat),
            n == b@.len() / (w as nat),
            b@.len() <= usize::MAX,
            k <= n,
            out@.len() == k,
            forall|j: int|
                0 <= j < k ==> #[trigger] out@[j] == decode_all(f.p as nat, w as nat, b@)[j],
            forall|j: int| 0 <= j < k ==> #[trigger] out@[j] < f.p,
        decreases n - k,
    {
        proof {
            lemma_group_in_bounds(k as nat, n as nat, w as nat, b@.len());
        }
        let v = decode_elem_at(f, b, k * w, w);
        out.push(v);
        k = k + 1;
    }
    assert(out@ =~= decode_all(f.p as nat, w as nat, b@));
    out
}

/// Concatenates the encodings of the elements.
pub fn u8s_from_felts(f: &Field, xs: &[u64]) -> (r: Vec<u8>)
    requires
        f.wf(),
        forall|i: int| 0 <= i < xs@.len() ==> #[trigger] xs@[i] < f.p,
    ensures
        r@ == encode_all(elem_width_spec(f.p as nat), xs@),
{
    let w = elem_width(f.p);
    proof {
        lemma_width_unique(f.p as nat, w as nat);
    }
    let mut out: Vec<u8> = Vec::new();
    let mut k: usize = 0;
    while k < xs.len()
        invariant
            f.wf(),
            is_width(f.p as nat, w as nat),
            w == elem_width_spec(f.p as nat),
            forall|i: int| 0 <= i < xs@.len() ==> #[trigger] xs@[i] < f.p,
            k <= xs@.len(),
            out@ == encode_all(w as nat, xs@.take(k as int)),
        decreases xs@.len() - k,
    {
        let e = encode_elem(xs[k], w);
        assert(xs@.take(k + 1).drop_last() =~= xs@.take(k as int));
        out.append(&mut e.clone());
        k = k + 1;
    }
    assert(xs@.take(xs@.len() as int) =~= xs@);
    out
}

/// The element width as a function of the modulus.
pub open spec fn elem_width_spec(p: nat) -> nat {
    choose|w: nat| is_width(p, w)
}

proof fn lemma_width_unique(p: nat, w: nat)
    requires
        is_width(p, w),
    ensures
        elem_width_spec(p) == w,
{
    let v = elem_width_spec(p);
    assert(is_width(p, v));
    if v < w {
        lemma_pow256_mono(v, (w - 1) as nat);
    } else if w < v {
        lemma_pow256_mono(w, (v - 1) as nat);
    }
}

/// Every modulus of a `u64` has an element width, between 1 and 8.
pub proof fn lemma_width_exists(p: nat)
    requires
        2 <= p < 0x1_0000_0000_0000_0000,
    ensures
        is_width(p, elem_width_spec(p)),
        1 <= elem_width_spec(p) <= 8,
{
    assert(pow256(8) == 0x1_0000_0000_0000_0000 && pow256(0) == 1) by {
        reveal_with_fuel(pow256, 9);
    }
    lemma_width_from(p, 1);
}

proof fn lemma_width_from(p: nat, w: nat)
    requires
        1 <= w <= 8,
        p >= pow256((w - 1) as nat),
        p < pow256(8),
    ensures
        is_width(p, elem_width_spec(p)),
        1 <= elem_width_spec(p) <= 8,
    decreases 8 - w,
{
    if p < pow256(w) {
        lemma_width_unique(p, w);
    } else {
        if w == 8 {
            assert(false);
        }
        lemma_width_from(p, w + 1);
    }
}

proof fn lemma_group_in_bounds(k: nat, n: nat, w: nat, len: nat)
    requires
        w >= 1,
        n == len / w,
        k < n,
    ensures
        k * w + w <= len,
{
    lemma_fundamental_div_mod(len as int, w as int);
    assert(k * w + w <= len) by (nonlinear_arith)
        requires
            k + 1 <= n,
            len == w * n + len % w,
            len % w >= 0,
            w >= 1,
    ;
}

} // verus!
