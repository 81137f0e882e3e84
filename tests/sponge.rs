use poseidon::instances::{derive_cauchy_mds, derive_round_constants};
use poseidon::params::{ParamSet, PoseidonError};
use poseidon::permutation::{hash, permute};
use poseidon::field::Field;
use poseidon::{hash_bytes, hash_bytes_s128b, hash_bytes_sw2};
use poseidon::{hash_pallas, hash_s128b, hash_sw2, hash_sw3, hash_sw4, hash_sw8, hash_vesta};

fn toy_mds() -> Vec<Vec<u64>> {
    vec![vec![2, 1, 1], vec![1, 2, 1], vec![1, 1, 2]]
}

fn toy_params() -> ParamSet {
    ParamSet::new(97, 3, 1, 5, 2, 2, (1..13).collect(), toy_mds()).unwrap()
}

#[test]
fn toy_digest_is_fixed_and_order_sensitive() {
    let ps = toy_params();
    let d = hash(&[3, 5], &ps).unwrap();
    assert_eq!(d, vec![78, 4]);
    assert_eq!(hash(&[3, 5], &ps).unwrap(), vec![78, 4]);
    let e = hash(&[5, 3], &ps).unwrap();
    assert_eq!(e, vec![74, 18]);
    assert_ne!(d, e);
}

#[test]
fn toy_longer_input_spans_blocks() {
    let ps = toy_params();
    assert_eq!(hash(&[1, 2, 3, 4, 5], &ps).unwrap(), vec![89, 36]);
}

#[test]
fn empty_input_has_a_digest() {
    let ps = toy_params();
    let d = hash(&[], &ps).unwrap();
    assert_eq!(d, vec![34, 50]);
    let p = permute(&ps, &vec![1, 0, 0]);
    assert_eq!(p, vec![34, 50, 12]);
    assert_eq!(d, p[..2].to_vec());
}

#[test]
fn permutation_of_zero_state() {
    let ps = toy_params();
    assert_eq!(permute(&ps, &vec![0, 0, 0]), vec![46, 68, 38]);
}

#[test]
fn changing_a_round_constant_changes_the_digest() {
    let mut rc: Vec<u64> = (1..13).collect();
    rc[5] = 50;
    let ps = ParamSet::new(97, 3, 1, 5, 2, 2, rc, toy_mds()).unwrap();
    assert_eq!(hash(&[3, 5], &ps).unwrap(), vec![29, 83]);
}

#[test]
fn changing_an_mds_entry_changes_the_digest() {
    let mut m = toy_mds();
    m[1][1] = 3;
    let ps = ParamSet::new(97, 3, 1, 5, 2, 2, (1..13).collect(), m).unwrap();
    assert_eq!(hash(&[3, 5], &ps).unwrap(), vec![70, 4]);
}

#[test]
fn alpha_sharing_a_factor_with_p_minus_one_is_rejected() {
    let r = ParamSet::new(97, 3, 1, 3, 2, 2, (1..13).collect(), toy_mds());
    assert_eq!(r.unwrap_err(), PoseidonError::MalformedParameters);
}

#[test]
fn table_size_mismatches_are_rejected() {
    let short = ParamSet::new(97, 3, 1, 5, 2, 2, (1..12).collect(), toy_mds());
    assert_eq!(short.unwrap_err(), PoseidonError::MalformedParameters);
    let narrow = ParamSet::new(97, 3, 1, 5, 2, 2, (1..13).collect(), vec![vec![1, 1, 1], vec![1, 1], vec![1, 1, 1]]);
    assert_eq!(narrow.unwrap_err(), PoseidonError::MalformedParameters);
    let rows = ParamSet::new(97, 3, 1, 5, 2, 2, (1..13).collect(), vec![vec![1, 1, 1]]);
    assert_eq!(rows.unwrap_err(), PoseidonError::MalformedParameters);
}

#[test]
fn capacity_rounds_and_ranges_are_checked() {
    let no_capacity = ParamSet::new(97, 3, 0, 5, 2, 2, (1..13).collect(), toy_mds());
    assert_eq!(no_capacity.unwrap_err(), PoseidonError::MalformedParameters);
    let odd_full = ParamSet::new(97, 3, 1, 5, 3, 1, (1..13).collect(), toy_mds());
    assert_eq!(odd_full.unwrap_err(), PoseidonError::MalformedParameters);
    let mut rc: Vec<u64> = (1..13).collect();
    rc[0] = 97;
    let big = ParamSet::new(97, 3, 1, 5, 2, 2, rc, toy_mds());
    assert_eq!(big.unwrap_err(), PoseidonError::MalformedParameters);
}

#[test]
fn hash_under_malformed_parameters_is_invalid_input() {
    let ps = ParamSet {
        p: 97,
        t: 3,
        c: 1,
        alpha: 3,
        full_rounds: 2,
        partial_rounds: 2,
        round_constants: (1..13).collect(),
        mds: toy_mds(),
    };
    assert_eq!(hash(&[3, 5], &ps), Err(PoseidonError::InvalidInput));
    assert_eq!(hash_bytes(&ps, &[3, 5], 2), Err(PoseidonError::InvalidInput));
}

#[test]
fn cauchy_matrix_entries_are_inverses() {
    let f = Field::new(97);
    let m = derive_cauchy_mds(&f, 3).unwrap();
    assert_eq!(m, vec![vec![65, 73, 39], vec![73, 39, 81], vec![39, 81, 14]]);
}

#[test]
fn cauchy_matrix_with_zero_denominator_fails() {
    let f = Field::new(5);
    assert_eq!(derive_cauchy_mds(&f, 3), Err(PoseidonError::DivisionByZero));
    let g = Field::new(9);
    assert_eq!(derive_cauchy_mds(&g, 3), Err(PoseidonError::MalformedParameters));
}

#[test]
fn round_constants_are_powers_of_the_seed() {
    let f = Field::new(97);
    assert_eq!(derive_round_constants(&f, 2, 8), vec![2, 4, 8, 16, 32, 64, 31, 62]);
}

#[test]
fn named_instances_hash() {
    assert_eq!(hash_s128b(&[7, 54]).unwrap(), vec![3560574029288889922, 12918578763459295035]);
    assert_eq!(hash_sw2(&[7, 54]).unwrap(), vec![3072457396442748837, 16970600439638815783]);
    assert_eq!(
        hash_sw3(&[7, 54]).unwrap(),
        vec![17560708064006157784, 303509988224485558, 1935269213486386107]
    );
    assert_eq!(
        hash_sw4(&[7, 54]).unwrap(),
        vec![4595631917217200295, 14478005739610019666, 5646082997870672440, 8622509139731937298]
    );
    assert_eq!(hash_sw8(&[7, 54]).unwrap().len(), 8);
    assert_eq!(hash_sw8(&[7, 54]).unwrap()[0], 7382399326969808291);
    assert_eq!(hash_pallas(&[7, 54]).unwrap(), vec![1538352632643831221, 587262667801689896]);
    assert_eq!(hash_vesta(&[7, 54]).unwrap(), vec![1954342117, 1654780580]);
}

#[test]
fn named_instance_is_deterministic() {
    assert_eq!(hash_vesta(&[1, 2, 3]).unwrap(), hash_vesta(&[1, 2, 3]).unwrap());
    assert_eq!(hash_vesta(&[]).unwrap().len(), 2);
}

fn s128b_input() -> Vec<u8> {
    let mut b = 7u64.to_le_bytes().to_vec();
    b.extend_from_slice(&54u64.to_le_bytes());
    b
}

#[test]
fn byte_entry_returns_whole_encoded_digest() {
    let out = hash_bytes_s128b(&s128b_input(), 64).unwrap();
    assert_eq!(out, vec![66, 222, 62, 4, 55, 179, 105, 49, 59, 119, 229, 150, 240, 2, 72, 179]);
    let out2 = hash_bytes_sw2(&s128b_input(), 16).unwrap();
    assert_eq!(out2, vec![165, 215, 125, 54, 185, 143, 163, 42, 39, 116, 194, 141, 47, 175, 131, 235]);
}

#[test]
fn byte_entry_truncates_to_capacity() {
    let out = hash_bytes_s128b(&s128b_input(), 5).unwrap();
    assert_eq!(out.len(), 5);
    assert_eq!(out, vec![66, 222, 62, 4, 55]);
    assert_eq!(hash_bytes_s128b(&s128b_input(), 0).unwrap(), Vec::<u8>::new());
}

#[test]
fn byte_entry_on_toy_parameters() {
    let ps = toy_params();
    assert_eq!(hash_bytes(&ps, &[3, 5], 10).unwrap(), vec![78, 4]);
    assert_eq!(hash_bytes(&ps, &[3, 5], 1).unwrap(), vec![78]);
    // 100 reduces to 3
    assert_eq!(hash_bytes(&ps, &[100, 5], 2).unwrap(), vec![78, 4]);
}

#[test]
fn pallas_digest_depends_on_input_order() {
    let a = hash_pallas(&[3, 5]).unwrap();
    let b = hash_pallas(&[5, 3]).unwrap();
    assert_eq!(a, vec![388724329297785108, 880322401210793829]);
    assert_eq!(b, vec![1729123916471782571, 1086843664807018389]);
    assert_ne!(a, b);
}

#[test]
fn byte_entry_congruent_inputs_agree() {
    // 7 + p encodes the same residue as 7
    let mut b = (7u64 + 18446744073709551557).to_le_bytes().to_vec();
    b.extend_from_slice(&54u64.to_le_bytes());
    assert_eq!(hash_bytes_s128b(&b, 64).unwrap(), hash_bytes_s128b(&s128b_input(), 64).unwrap());
}

#[test]
fn byte_entry_ignores_trailing_partial_group() {
    let mut b = s128b_input();
    b.extend_from_slice(&[1, 2, 3]);
    assert_eq!(hash_bytes_s128b(&b, 64).unwrap(), hash_bytes_s128b(&s128b_input(), 64).unwrap());
}

#[test]
fn named_instances_hash_empty_input() {
    assert_eq!(hash_sw4(&[]).unwrap().len(), 4);
    assert_eq!(hash_sw4(&[]).unwrap(), hash_sw4(&[]).unwrap());
    assert_eq!(hash_s128b(&[]).unwrap().len(), 2);
}
