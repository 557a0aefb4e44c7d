use haplotype_assembly::classify::{assign_origin, Origin};
use haplotype_assembly::encode::EncodeError;
use haplotype_assembly::fragment::{calls_in_range, FragCall, Fragment};
use haplotype_assembly::mec::{Genotype, MecError, Ratio, Var, VarList};
use haplotype_assembly::quality::qual_byte;
use haplotype_assembly::solver::{read_phase_sets, solver_output_buffers, SolverError};
use haplotype_assembly::{calculate_mec, generate_flist_buffer, separate_reads_by_haplotype};

fn call(var_ix: usize, allele: u8) -> FragCall {
    FragCall { var_ix, allele, confident: true, phred: 30 }
}

fn frag(id: &str, calls: Vec<FragCall>) -> Fragment {
    Fragment { id: id.to_string(), calls }
}

fn var(hap0: u8, hap1: u8, phase_set: Option<usize>, counts: Vec<usize>) -> Var {
    Var {
        genotype: Genotype(hap0, hap1),
        phase_set,
        allele_counts: counts,
        mec: 0,
        mec_frac_variant: Ratio { num: 0, den: 1 },
        mec_frac_block: Ratio { num: 0, den: 1 },
    }
}

fn as_f64(r: Ratio) -> f64 {
    r.num as f64 / r.den as f64
}

#[test]
fn encoder_omits_fragment_with_one_qualifying_call() {
    let flist = vec![frag("r1", vec![call(0, 0), call(1, 1), call(2, 0)])];
    let mask = vec![false, true, false];
    let buf = generate_flist_buffer(&flist, &mask).unwrap();
    assert!(buf.is_empty());
}

#[test]
fn encoder_omits_fragment_whose_calls_are_not_confident() {
    let mut calls = vec![call(0, 0), call(1, 1), call(2, 0)];
    calls[0].confident = false;
    calls[2].confident = false;
    let flist = vec![frag("r1", calls)];
    let buf = generate_flist_buffer(&flist, &vec![true, true, true]).unwrap();
    assert!(buf.is_empty());
}

#[test]
fn encoder_counts_two_blocks() {
    let flist = vec![frag("f1", vec![call(3, 0), call(4, 1), call(5, 0), call(9, 1)])];
    let mask = vec![true; 10];
    let buf = generate_flist_buffer(&flist, &mask).unwrap();
    assert_eq!(buf.len(), 1);
    assert_eq!(buf[0], b"2 f1  4 010 10 1 ????\0".to_vec());
}

#[test]
fn encoder_single_run_is_one_block() {
    let flist = vec![frag("a", vec![call(0, 1), call(1, 1)])];
    let buf = generate_flist_buffer(&flist, &vec![true, true]).unwrap();
    assert_eq!(buf, vec![b"1 a  1 11 ??\0".to_vec()]);
}

#[test]
fn encoder_keeps_input_order_and_skips() {
    let flist = vec![
        frag("x", vec![call(0, 0), call(2, 1)]),
        frag("y", vec![call(1, 0)]),
        frag("z", vec![call(1, 1), call(2, 0)]),
    ];
    let buf = generate_flist_buffer(&flist, &vec![true, true, true]).unwrap();
    assert_eq!(buf, vec![b"2 x  1 0 3 1 ??\0".to_vec(), b"1 z  2 10 ??\0".to_vec()]);
}

#[test]
fn encoder_caps_quality_byte() {
    let mut calls = vec![call(0, 0), call(1, 1)];
    calls[0].phred = 500;
    calls[1].phred = u32::MAX;
    let flist = vec![frag("q", calls)];
    let buf = generate_flist_buffer(&flist, &vec![true, true]).unwrap();
    assert_eq!(buf, vec![b"1 q  1 01 ~~\0".to_vec()]);
}

#[test]
fn encoder_rejects_invalid_index() {
    let flist = vec![frag("a", vec![call(0, 0), call(5, 1)])];
    assert_eq!(generate_flist_buffer(&flist, &vec![true, true]), Err(EncodeError::InvalidIndex));
}

#[test]
fn encoder_rejects_allele_that_is_no_digit() {
    let flist = vec![frag("a", vec![call(0, 0), call(1, 12)])];
    assert_eq!(generate_flist_buffer(&flist, &vec![true, true]), Err(EncodeError::InvalidAllele));
}

#[test]
fn quality_byte_is_capped() {
    assert_eq!(qual_byte(0), 33);
    assert_eq!(qual_byte(30), 63);
    assert_eq!(qual_byte(93), 126);
    assert_eq!(qual_byte(94), 126);
    assert_eq!(qual_byte(u32::MAX), 126);
}

#[test]
fn calls_in_range_checks_every_call() {
    let flist = vec![frag("a", vec![call(0, 0)]), frag("b", vec![call(1, 0), call(3, 1)])];
    assert!(calls_in_range(&flist, 4));
    assert!(!calls_in_range(&flist, 3));
}

#[test]
fn classifier_splits_by_origin() {
    let flist = vec![frag("a", vec![]), frag("b", vec![]), frag("c", vec![]), frag("d", vec![])];
    let origins = vec![Origin::Hap1, Origin::Hap0, Origin::Unassigned, Origin::Hap0];
    let (h0, h1) = separate_reads_by_haplotype(&flist, &origins);
    assert_eq!(h0, vec!["b".to_string(), "d".to_string()]);
    assert_eq!(h1, vec!["a".to_string()]);
    for id in &h0 {
        assert!(!h1.contains(id));
    }
}

#[test]
fn origin_prefers_haplotype_zero() {
    assert_eq!(assign_origin(true, true), Origin::Hap0);
    assert_eq!(assign_origin(true, false), Origin::Hap0);
    assert_eq!(assign_origin(false, true), Origin::Hap1);
    assert_eq!(assign_origin(false, false), Origin::Unassigned);
}

#[test]
fn mec_fragment_matching_haplotype_zero_adds_no_error() {
    let flist = vec![frag("r", vec![call(0, 0), call(1, 0)])];
    let mut vl = VarList {
        lst: vec![var(0, 1, Some(0), vec![5, 5]), var(0, 1, Some(0), vec![5, 5])],
    };
    assert_eq!(calculate_mec(&flist, &mut vl), Ok(()));
    assert_eq!(vl.lst[0].mec, 0);
    assert_eq!(vl.lst[1].mec, 0);
    assert_eq!(as_f64(vl.lst[0].mec_frac_block), 0.0);
}

#[test]
fn mec_fractions_are_exact() {
    let r = || frag("r", vec![call(0, 1), call(1, 0), call(2, 0)]);
    let flist = vec![r(), r(), r()];
    let mut vl = VarList {
        lst: vec![
            var(0, 1, Some(0), vec![7, 3]),
            var(0, 1, Some(0), vec![5, 5]),
            var(0, 1, Some(0), vec![6, 4]),
        ],
    };
    assert_eq!(calculate_mec(&flist, &mut vl), Ok(()));
    assert_eq!(vl.lst[0].mec, 3);
    assert_eq!(vl.lst[0].mec_frac_variant, Ratio { num: 3, den: 10 });
    assert_eq!(as_f64(vl.lst[0].mec_frac_variant), 0.3);
    assert_eq!(vl.lst[1].mec, 0);
    assert_eq!(as_f64(vl.lst[1].mec_frac_variant), 0.0);
    assert_eq!(vl.lst[0].mec_frac_block, Ratio { num: 3, den: 30 });
}

#[test]
fn mec_tie_is_charged_to_haplotype_zero() {
    let flist = vec![frag("r", vec![call(0, 1), call(1, 0)])];
    let mut vl = VarList {
        lst: vec![var(0, 1, Some(2), vec![4, 4]), var(0, 1, Some(2), vec![2, 2])],
    };
    assert_eq!(calculate_mec(&flist, &mut vl), Ok(()));
    assert_eq!(vl.lst[0].mec, 1);
    assert_eq!(vl.lst[1].mec, 0);
    assert_eq!(vl.lst[1].mec_frac_block, Ratio { num: 1, den: 12 });
}

#[test]
fn mec_ignores_calls_that_are_not_confident() {
    let mut c = call(0, 1);
    c.confident = false;
    let flist = vec![frag("r", vec![c, call(1, 1)])];
    let mut vl = VarList {
        lst: vec![var(0, 1, Some(0), vec![1, 1]), var(0, 0, Some(0), vec![1, 1])],
    };
    assert_eq!(calculate_mec(&flist, &mut vl), Ok(()));
    assert_eq!(vl.lst[0].mec, 0);
    assert_eq!(vl.lst[1].mec, 1);
}

#[test]
fn mec_unphased_variants_stay_zero() {
    let flist = vec![frag("r", vec![call(0, 1), call(1, 1), call(2, 1)])];
    let mut vl = VarList {
        lst: vec![
            var(0, 0, None, vec![3, 0]),
            var(0, 1, Some(0), vec![2, 2]),
            var(0, 0, None, vec![0, 0]),
        ],
    };
    vl.lst[0].mec = 9;
    vl.lst[0].mec_frac_block = Ratio { num: 1, den: 2 };
    assert_eq!(calculate_mec(&flist, &mut vl), Ok(()));
    for i in [0, 2] {
        assert_eq!(vl.lst[i].mec, 0);
        assert_eq!(as_f64(vl.lst[i].mec_frac_variant), 0.0);
        assert_eq!(as_f64(vl.lst[i].mec_frac_block), 0.0);
    }
}

#[test]
fn mec_twice_gives_same_statistics() {
    let flist = vec![
        frag("a", vec![call(0, 1), call(1, 0), call(2, 0)]),
        frag("b", vec![call(1, 1), call(2, 0)]),
    ];
    let mut vl = VarList {
        lst: vec![
            var(0, 1, Some(0), vec![3, 3]),
            var(0, 1, Some(0), vec![4, 1]),
            var(1, 0, Some(5), vec![2, 2]),
        ],
    };
    assert_eq!(calculate_mec(&flist, &mut vl), Ok(()));
    let first: Vec<(usize, Ratio, Ratio)> =
        vl.lst.iter().map(|v| (v.mec, v.mec_frac_variant, v.mec_frac_block)).collect();
    assert_eq!(calculate_mec(&flist, &mut vl), Ok(()));
    let second: Vec<(usize, Ratio, Ratio)> =
        vl.lst.iter().map(|v| (v.mec, v.mec_frac_variant, v.mec_frac_block)).collect();
    assert_eq!(first, second);
}

#[test]
fn mec_rejects_invalid_index() {
    let flist = vec![frag("r", vec![call(0, 0), call(7, 1)])];
    let mut vl = VarList { lst: vec![var(0, 1, Some(0), vec![1, 1])] };
    assert_eq!(calculate_mec(&flist, &mut vl), Err(MecError::InvalidIndex));
}

#[test]
fn mec_rejects_phased_variant_without_observations() {
    let flist = vec![frag("r", vec![call(0, 0)])];
    let mut vl = VarList { lst: vec![var(0, 1, Some(0), vec![1, 1]), var(0, 1, Some(0), vec![0, 0])] };
    vl.lst[0].mec = 4;
    assert_eq!(calculate_mec(&flist, &mut vl), Err(MecError::ZeroTotal));
    assert_eq!(vl.lst[0].mec, 4);
}

#[test]
fn mec_rejects_total_that_overflows() {
    let flist: Vec<Fragment> = vec![];
    let mut vl = VarList { lst: vec![var(0, 1, Some(0), vec![usize::MAX, 1])] };
    assert_eq!(calculate_mec(&flist, &mut vl), Err(MecError::Overflow));
}

#[test]
fn solver_buffers_have_exact_size() {
    let (hap, sets) = solver_output_buffers(4);
    assert_eq!(hap, vec![0u8; 4]);
    assert_eq!(sets, vec![0i32; 4]);
}

#[test]
fn solver_output_is_read_with_sentinel() {
    let hap = vec![0u8, 1, 0];
    let sets = vec![3i32, -1, 0];
    assert_eq!(read_phase_sets(3, &hap, &sets), Ok(vec![Some(3), None, Some(0)]));
    assert_eq!(read_phase_sets(4, &hap, &sets), Err(SolverError::LengthMismatch));
    assert_eq!(read_phase_sets(3, &hap, &vec![1, 2]), Err(SolverError::LengthMismatch));
}
