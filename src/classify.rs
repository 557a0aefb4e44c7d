use vstd::prelude::*;

use crate::fragment::Fragment;

verus! {

/// The haplotype a fragment is assigned to.
#[derive(Clone, Copy, Debug, PartialEq, Eq, Structural)]
pub enum Origin {
    Hap0,
    Hap1,
    Unassigned,
}

/// A fragment goes to haplotype 0 when its normalised posterior for
/// haplotype 0 exceeds the threshold, else to haplotype 1 when that one's
/// does, and stays unassigned otherwise.
pub open spec fn origin_of(hap0_above: bool, hap1_above: bool) -> Origin {
    if hap0_above {
        Origin::Hap0
    } else if hap1_above {
        Origin::Hap1
    } else {
        Origin::Unassigned
    }
}

/// Decides the origin of a fragment from whether each of its normalised
/// posteriors exceeds the threshold.
pub fn assign_origin(hap0_above: bool, hap1_above: bool) -> (r: Origin)
    ensures
        r == origin_of(hap0_above, hap1_above),
{
    if hap0_above {
        Origin::Hap0
    } else if hap1_above {
        Origin::Hap1
    } else {
        Origin::Unassigned
    }
}

/// The ids of the fragments among the first `n` whose origin is `o`, in
/// input order.
pub open spec fn ids_with(fs: Seq<Fragment>, os: Seq<Origin>, o: Origin, n: int) -> Seq<Seq<char>>
    decreases n,
{
    if n <= 0 {
        Seq::empty()
    } else {
        let r = ids_with(fs, os, o, n - 1);
        if os[n - 1] == o {
            r.push(fs[n - 1].id@)
        } else {
            r
        }
    }
}

/// No two fragments share an id.
pub open spec fn unique_ids(fs: Seq<Fragment>) -> bool {
    forall|i: int, j: int|
        0 <= i < fs.len() && 0 <= j < fs.len() && i != j ==> #[trigger] fs[i].id@ != #[trigger] fs[j].id@
}

/// Splits the fragment ids by origin: `origins[i]` is the origin of
/// `flist[i]`. The first list holds the ids of the haplotype-0 fragments, the
/// second those of the haplotype-1 fragments, both in input order; the
/// unassigned fragments appear in neither.
pub fn separate_reads_by_haplotype(flist: &Vec<Fragment>, origins: &Vec<Origin>) -> (r: (
    Vec<String>,
    Vec<String>,
))
    requires
        origins@.len() == flist@.len(),
    ensures
        r.0@.map_values(|s: String| s@) == ids_with(
            flist@,
            origins@,
            Origin::Hap0,
            flist@.len() as int,
        ),
        r.1@.map_values(|s: String| s@) == ids_with(
            flist@,
            origins@,
            Origin::Hap1,
            flist@.len() as int,
        ),
{
    let mut h0: Vec<String> = Vec::new();
    let mut h1: Vec<String> = Vec::new();
    let mut i: usize = 0;
    while i < flist.len()
        invariant
            origins@.len() == flist@.len(),
            i <= flist@.len(),
            h0@.map_values(|s: String| s@) == ids_with(flist@, origins@, Origin::Hap0, i as int),
            h1@.map_values(|s: String| s@) == ids_with(flist@, origins@, Origin::Hap1, i as int),
        decreases flist@.len() - i,
    {
        let ghost old0 = h0@;
        let ghost old1 = h1@;
        match origins[i] {
            Origin::Hap0 => {
                let id = flist[i].id.clone();
                h0.push(id);
                assert(h0@.map_values(|s: String| s@) =~= old0.map_values(|s: String| s@).push(
                    flist@[i as int].id@,
                ));
            },
            Origin::Hap1 => {
                let id = flist[i].id.clone();
                h1.push(id);
                assert(h1@.map_values(|s: String| s@) =~= old1.map_values(|s: String| s@).push(
                    flist@[i as int].id@,
                ));
            },
            Origin::Unassigned => {},
        }
        i += 1;
    }
    (h0, h1)
}

/// `id` is the id of one of the first `n` fragments, and that fragment's
/// origin is `o`.
pub open spec fn has_origin(fs: Seq<Fragment>, os: Seq<Origin>, o: Origin, id: Seq<char>, n: int) -> bool {
    exists|i: int| 0 <= i < n && os[i] == o && #[trigger] fs[i].id@ == id
}

proof fn lemma_ids_from_input(fs: Seq<Fragment>, os: Seq<Origin>, o: Origin, n: int)
    requires
        n <= fs.len(),
        n <= os.len(),
    ensures
        forall|k: int|
            0 <= k < ids_with(fs, os, o, n).len() ==> has_origin(
                fs,
                os,
                o,
                #[trigger] ids_with(fs, os, o, n)[k],
                n,
            ),
    decreases n,
{
    if n > 0 {
        lemma_ids_from_input(fs, os, o, n - 1);
        let prev = ids_with(fs, os, o, n - 1);
        let cur = ids_with(fs, os, o, n);
        assert forall|k: int| 0 <= k < cur.len() implies has_origin(fs, os, o, #[trigger] cur[k], n) by {
            if k < prev.len() {
                assert(cur[k] == prev[k]);
                assert(has_origin(fs, os, o, prev[k], n - 1));
                let i = choose|i: int| 0 <= i < n - 1 && os[i] == o && #[trigger] fs[i].id@ == prev[k];
                assert(fs[i].id@ == cur[k]);
            } else {
                assert(cur[k] == fs[n - 1].id@);
            }
        }
    }
}

/// Every id in either output list is the id of an input fragment of that
/// origin, and when fragment ids are unique no id lands in both lists.
pub proof fn lemma_classes_disjoint(fs: Seq<Fragment>, os: Seq<Origin>)
    requires
        os.len() == fs.len(),
    ensures
        forall|k: int|
            0 <= k < ids_with(fs, os, Origin::Hap0, fs.len() as int).len() ==> has_origin(
                fs,
                os,
                Origin::Hap0,
                #[trigger] ids_with(fs, os, Origin::Hap0, fs.len() as int)[k],
                fs.len() as int,
            ),
        forall|k: int|
            0 <= k < ids_with(fs, os, Origin::Hap1, fs.len() as int).len() ==> has_origin(
                fs,
                os,
                Origin::Hap1,
                #[trigger] ids_with(fs, os, Origin::Hap1, fs.len() as int)[k],
                fs.len() as int,
            ),
        unique_ids(fs) ==> forall|a: int, b: int|
            0 <= a < ids_with(fs, os, Origin::Hap0, fs.len() as int).len() && 0 <= b < ids_with(
                fs,
                os,
                Origin::Hap1,
                fs.len() as int,
            ).len() ==> #[trigger] ids_with(fs, os, Origin::Hap0, fs.len() as int)[a]
                != #[trigger] ids_with(fs, os, Origin::Hap1, fs.len() as int)[b],
{
    let n = fs.len() as int;
    lemma_ids_from_input(fs, os, Origin::Hap0, n);
    lemma_ids_from_input(fs, os, Origin::Hap1, n);
    if unique_ids(fs) {
        let s0 = ids_with(fs, os, Origin::Hap0, n);
        let s1 = ids_with(fs, os, Origin::Hap1, n);
        assert forall|a: int, b: int| 0 <= a < s0.len() && 0 <= b < s1.len() implies #[trigger] s0[a]
            != #[trigger] s1[b] by {
            assert(has_origin(fs, os, Origin::Hap0, s0[a], n));
            assert(has_origin(fs, os, Origin::Hap1, s1[b], n));
            let i = choose|i: int| 0 <= i < n && os[i] == Origin::Hap0 && #[trigger] fs[i].id@ == s0[a];
            let j = choose|j: int| 0 <= j < n && os[j] == Origin::Hap1 && #[trigger] fs[j].id@ == s1[b];
            assert(i != j);
        }
    }
}

} // verus!
