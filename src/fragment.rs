use vstd::prelude::*;

verus! {

/// One observed allele at one variant site within a fragment.
///
/// `confident` says whether the call's miscall probability lies below the
/// miscall ceiling of the run, and `phred` is that probability on the PHRED
/// scale, truncated to an integer.
#[derive(Clone, Copy, Debug, PartialEq, Eq, Structural)]
pub struct FragCall {
    pub var_ix: usize,
    pub allele: u8,
    pub confident: bool,
    pub phred: u32,
}

/// One sequencing read: its id and its calls, ordered by variant index.
#[derive(Clone, Debug)]
pub struct Fragment {
    pub id: String,
    pub calls: Vec<FragCall>,
}

/// Every call of every fragment names a variant below `n`.
pub open spec fn indices_below(fs: Seq<Fragment>, n: int) -> bool {
    forall|i: int, j: int|
        0 <= i < fs.len() && 0 <= j < fs[i].calls@.len() ==> (#[trigger] fs[i].calls@[j]).var_ix
            < n
}

/// Checks that every call of every fragment names a variant below `n`.
pub fn calls_in_range(flist: &Vec<Fragment>, n: usize) -> (r: bool)
    ensures
        r == indices_below(flist@, n as int),
{
    let mut i: usize = 0;
    while i < flist.len()
        invariant
            i <= flist@.len(),
            indices_below(flist@.take(i as int), n as int),
        decreases flist@.len() - i,
    {
        let calls = &flist[i].calls;
        let mut j: usize = 0;
        while j < calls.len()
            invariant
                i < flist@.len(),
                calls@ == flist@[i as int].calls@,
                j <= calls@.len(),
                forall|k: int| 0 <= k < j ==> (#[trigger] calls@[k]).var_ix < n,
            decreases calls@.len() - j,
        {
            if calls[j].var_ix >= n {
                assert(flist@[i as int].calls@[j as int].var_ix >= n);
                return false;
            }
            j += 1;
        }
        assert(indices_below(flist@.take(i + 1), n as int)) by {
            assert forall|a: int, b: int|
                0 <= a < i + 1 && 0 <= b < flist@.take(i + 1)[a].calls@.len() implies (
                #[trigger] flist@.take(i + 1)[a].calls@[b]).var_ix < n by {
                if a < i {
                    assert(flist@.take(i as int)[a] == flist@[a]);
                }
            }
        }
        i += 1;
    }
    assert(flist@.take(i as int) =~= flist@);
    true
}

} // verus!
