use vstd::prelude::*;

verus! {

/// The phasing solver's output does not have one entry per variant.
#[derive(Clone, Copy, Debug, PartialEq, Eq, Structural)]
pub enum SolverError {
    LengthMismatch,
}

/// The phase set that a solver entry denotes: a negative id marks an
/// unphased variant.
pub open spec fn phase_of(ps: i32) -> Option<usize> {
    if ps < 0 {
        None
    } else {
        Some(ps as usize)
    }
}

/// The output buffers handed to the solver for `snps` variants: one
/// haplotype byte and one phase-set id per variant, all zero.
pub fn solver_output_buffers(snps: usize) -> (r: (Vec<u8>, Vec<i32>))
    ensures
        r.0@ == Seq::new(snps as nat, |i: int| 0u8),
        r.1@ == Seq::new(snps as nat, |i: int| 0i32),
{
    let mut hap: Vec<u8> = Vec::new();
    let mut sets: Vec<i32> = Vec::new();
    let mut i: usize = 0;
    while i < snps
        invariant
            i <= snps,
            hap@ == Seq::new(i as nat, |k: int| 0u8),
            sets@ == Seq::new(i as nat, |k: int| 0i32),
        decreases snps - i,
    {
        hap.push(0);
        sets.push(0);
        i += 1;
        assert(hap@ =~= Seq::new(i as nat, |k: int| 0u8));
        assert(sets@ =~= Seq::new(i as nat, |k: int| 0i32));
    }
    (hap, sets)
}

/// Reads the solver's output for `snps` variants: the phase set of each
/// variant, `None` where the solver left it unphased. Output whose buffers do
/// not both hold exactly `snps` entries is refused whole.
pub fn read_phase_sets(snps: usize, hap: &Vec<u8>, phase_sets: &Vec<i32>) -> (r: Result<
    Vec<Option<usize>>,
    SolverError,
>)
    ensures
        r is Err <==> hap@.len() != snps || phase_sets@.len() != snps,
        r matches Ok(p) ==> p@ == phase_sets@.map_values(|ps: i32| phase_of(ps)),
{
    if hap.len() != snps || phase_sets.len() != snps {
        return Err(SolverError::LengthMismatch);
    }
    let mut out: Vec<Option<usize>> = Vec::new();
    let mut i: usize = 0;
    while i < phase_sets.len()
        invariant
            i <= phase_sets@.len(),
            out@ == phase_sets@.take(i as int).map_values(|ps: i32| phase_of(ps)),
        decreases phase_sets@.len() - i,
    {
        let ps = phase_sets[i];
        if ps < 0 {
            out.push(None);
        } else {
            out.push(Some(ps as usize));
        }
        i += 1;
        assert(out@ =~= phase_sets@.take(i as int).map_values(|ps: i32| phase_of(ps)));
    }
    assert(phase_sets@.take(i as int) =~= phase_sets@);
    Ok(out)
}

} // verus!
