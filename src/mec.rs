use vstd::prelude::*;

use std::collections::HashMap;

use crate::fragment::{calls_in_range, indices_below, FragCall, Fragment};

verus! {

/// A fraction `num / den`, kept exact.
#[derive(Clone, Copy, Debug, PartialEq, Eq, Structural)]
pub struct Ratio {
    pub num: usize,
    pub den: usize,
}

/// The fraction zero, as written into unphased variants.
pub open spec fn zero_ratio() -> Ratio {
    Ratio { num: 0, den: 1 }
}

/// The alleles of haplotype 0 and haplotype 1 at a site.
#[derive(Clone, Copy, Debug, PartialEq, Eq, Structural)]
pub struct Genotype(pub u8, pub u8);

/// One variant site under phasing, with the error statistics that the MEC
/// evaluator writes.
#[derive(Clone, Debug)]
pub struct Var {
    /// The alleles of haplotype 0 and haplotype 1 at this site.
    pub genotype: Genotype,
    /// The phase block of the site; `None` when the site is unphased.
    pub phase_set: Option<usize>,
    /// The number of calls observed for each allele at this site.
    pub allele_counts: Vec<usize>,
    /// The number of calls at this site charged as errors.
    pub mec: usize,
    /// `mec` over the site's allele observations.
    pub mec_frac_variant: Ratio,
    /// The errors of the site's block over the block's allele observations.
    pub mec_frac_block: Ratio,
}

/// The ordered table of variants.
#[derive(Clone, Debug)]
pub struct VarList {
    pub lst: Vec<Var>,
}

/// Why MEC statistics could not be computed.
#[derive(Clone, Copy, Debug, PartialEq, Eq, Structural)]
pub enum MecError {
    /// A call names a variant outside the table.
    InvalidIndex,
    /// A phased variant has no allele observations at all.
    ZeroTotal,
    /// A count or a sum does not fit in `usize`.
    Overflow,
}

/// What the statistics are computed from: a site's genotype, phase set and
/// allele counts.
pub type Site = (Genotype, Option<usize>, Seq<usize>);

pub open spec fn site(v: Var) -> Site {
    (v.genotype, v.phase_set, v.allele_counts@)
}

pub open spec fn sites(vs: Seq<Var>) -> Seq<Site> {
    vs.map_values(|v: Var| site(v))
}

/// The allele of haplotype `h` at a site.
pub open spec fn hap_allele(s: Site, h: int) -> u8 {
    if h == 0 {
        s.0.0
    } else {
        s.0.1
    }
}

/// A call counts against haplotype `h`: it is confident, its site is phased
/// and its allele differs from the haplotype's.
pub open spec fn mismatches_hap(c: FragCall, ss: Seq<Site>, h: int) -> bool {
    c.confident && c.var_ix < ss.len() && ss[c.var_ix as int].1 is Some && c.allele != hap_allele(
        ss[c.var_ix as int],
        h,
    )
}

/// The variants of the calls among the first `n` of `cs` that count against
/// haplotype `h`, in call order.
pub open spec fn mismatches(cs: Seq<FragCall>, ss: Seq<Site>, h: int, n: int) -> Seq<usize>
    decreases n,
{
    if n <= 0 {
        Seq::empty()
    } else {
        let m = mismatches(cs, ss, h, n - 1);
        if mismatches_hap(cs[n - 1], ss, h) {
            m.push(cs[n - 1].var_ix)
        } else {
            m
        }
    }
}

pub open spec fn frag_mismatches(f: Fragment, ss: Seq<Site>, h: int) -> Seq<usize> {
    mismatches(f.calls@, ss, h, f.calls@.len() as int)
}

/// The mismatches charged to a fragment: those against the haplotype it fits
/// best, haplotype 0 on a tie.
pub open spec fn charged(f: Fragment, ss: Seq<Site>) -> Seq<usize> {
    let m0 = frag_mismatches(f, ss, 0);
    let m1 = frag_mismatches(f, ss, 1);
    if m0.len() <= m1.len() {
        m0
    } else {
        m1
    }
}

/// How often `v` occurs among the first `n` elements of `s`.
pub open spec fn occurrences(s: Seq<usize>, v: int, n: int) -> nat
    decreases n,
{
    if n <= 0 {
        0
    } else {
        occurrences(s, v, n - 1) + if s[n - 1] == v {
            1nat
        } else {
            0nat
        }
    }
}

/// The errors charged to variant `v` by the first `n` fragments.
pub open spec fn mec_count(fs: Seq<Fragment>, ss: Seq<Site>, v: int, n: int) -> nat
    decreases n,
{
    if n <= 0 {
        0
    } else {
        let c = charged(fs[n - 1], ss);
        mec_count(fs, ss, v, n - 1) + occurrences(c, v, c.len() as int)
    }
}

/// The errors charged to variant `v` by all fragments.
pub open spec fn variant_mec(fs: Seq<Fragment>, ss: Seq<Site>, v: int) -> nat {
    mec_count(fs, ss, v, fs.len() as int)
}

/// The sum of the first `n` elements of `s`.
pub open spec fn sum(s: Seq<usize>, n: int) -> nat
    decreases n,
{
    if n <= 0 {
        0
    } else {
        sum(s, n - 1) + s[n - 1] as nat
    }
}

/// The number of allele observations at a site.
pub open spec fn site_total(s: Site) -> nat {
    sum(s.2, s.2.len() as int)
}

/// The errors charged to the variants of block `ps` among the first `n`.
pub open spec fn block_mec(fs: Seq<Fragment>, ss: Seq<Site>, ps: usize, n: int) -> nat
    decreases n,
{
    if n <= 0 {
        0
    } else {
        block_mec(fs, ss, ps, n - 1) + if ss[n - 1].1 == Some(ps) {
            variant_mec(fs, ss, n - 1)
        } else {
            0nat
        }
    }
}

/// The allele observations at the variants of block `ps` among the first `n`.
pub open spec fn block_total(ss: Seq<Site>, ps: usize, n: int) -> nat
    decreases n,
{
    if n <= 0 {
        0
    } else {
        block_total(ss, ps, n - 1) + if ss[n - 1].1 == Some(ps) {
            site_total(ss[n - 1])
        } else {
            0nat
        }
    }
}

/// Some phased site has no allele observations.
pub open spec fn has_zero_total(ss: Seq<Site>) -> bool {
    exists|i: int| 0 <= i < ss.len() && (#[trigger] ss[i]).1 is Some && site_total(ss[i]) == 0
}

/// Every count and sum that the statistics need fits in `usize`.
pub open spec fn counts_fit(fs: Seq<Fragment>, ss: Seq<Site>) -> bool {
    &&& forall|v: int| 0 <= v < ss.len() ==> #[trigger] variant_mec(fs, ss, v) <= usize::MAX
    &&& forall|i: int|
        #![trigger ss[i]]
        0 <= i < ss.len() && ss[i].1 is Some ==> {
            let ps = ss[i].1->0;
            &&& site_total(ss[i]) <= usize::MAX
            &&& block_mec(fs, ss, ps, ss.len() as int) <= usize::MAX
            &&& block_total(ss, ps, ss.len() as int) <= usize::MAX
        }
}

/// The error that the evaluator reports on these inputs, if any.
pub open spec fn mec_error(fs: Seq<Fragment>, ss: Seq<Site>) -> Option<MecError> {
    if !indices_below(fs, ss.len() as int) {
        Some(MecError::InvalidIndex)
    } else if has_zero_total(ss) {
        Some(MecError::ZeroTotal)
    } else if !counts_fit(fs, ss) {
        Some(MecError::Overflow)
    } else {
        None
    }
}

/// `new` is `old` with the statistics computed from the fragments `fs`: each
/// variant's error count and, for phased variants, its error fraction and its
/// block's; unphased variants get fractions of zero.
pub open spec fn mec_stats(fs: Seq<Fragment>, old: Seq<Var>, new: Seq<Var>) -> bool {
    let ss = sites(old);
    &&& new.len() == old.len()
    &&& forall|i: int|
        #![trigger new[i]]
        0 <= i < new.len() ==> {
            &&& site(new[i]) == site(old[i])
            &&& new[i].mec as int == variant_mec(fs, ss, i)
            &&& match old[i].phase_set {
                Some(ps) => {
                    &&& new[i].mec_frac_variant == Ratio {
                        num: variant_mec(fs, ss, i) as usize,
                        den: site_total(ss[i]) as usize,
                    }
                    &&& new[i].mec_frac_block == Ratio {
                        num: block_mec(fs, ss, ps, ss.len() as int) as usize,
                        den: block_total(ss, ps, ss.len() as int) as usize,
                    }
                },
                None => {
                    &&& new[i].mec == 0
                    &&& new[i].mec_frac_variant == zero_ratio()
                    &&& new[i].mec_frac_block == zero_ratio()
                },
            }
        }
}

proof fn lemma_sum_mono(s: Seq<usize>, a: int, b: int)
    requires
        a <= b,
    ensures
        sum(s, a) <= sum(s, b),
    decreases b - a,
{
    if a < b {
        lemma_sum_mono(s, a, b - 1);
    }
}

/// Sums the allele counts of a site; `None` when the sum exceeds `usize`.
fn sum_counts(counts: &Vec<usize>) -> (r: Option<usize>)
    ensures
        match r {
            Some(t) => t as nat == sum(counts@, counts@.len() as int),
            None => sum(counts@, counts@.len() as int) > usize::MAX,
        },
{
    let mut t: usize = 0;
    let mut k: usize = 0;
    while k < counts.len()
        invariant
            k <= counts@.len(),
            t as nat == sum(counts@, k as int),
        decreases counts@.len() - k,
    {
        if t > usize::MAX - counts[k] {
            proof {
                lemma_sum_mono(counts@, k + 1, counts@.len() as int);
            }
            return None;
        }
        t += counts[k];
        k += 1;
    }
    Some(t)
}

/// The variants where the fragment's confident calls at phased sites differ
/// from haplotype `h`, in call order.
fn fragment_mismatches(frag: &Fragment, vars: &Vec<Var>, h: usize) -> (r: Vec<usize>)
    requires
        h <= 1,
        forall|j: int|
            0 <= j < frag.calls@.len() ==> (#[trigger] frag.calls@[j]).var_ix < vars@.len(),
    ensures
        r@ == frag_mismatches(*frag, sites(vars@), h as int),
{
    let ghost ss = sites(vars@);
    let mut m: Vec<usize> = Vec::new();
    let mut j: usize = 0;
    while j < frag.calls.len()
        invariant
            h <= 1,
            ss == sites(vars@),
            j <= frag.calls@.len(),
            forall|k: int|
                0 <= k < frag.calls@.len() ==> (#[trigger] frag.calls@[k]).var_ix < vars@.len(),
            m@ == mismatches(frag.calls@, ss, h as int, j as int),
        decreases frag.calls@.len() - j,
    {
        let c = frag.calls[j];
        assert(c == frag.calls@[j as int]);
        if c.confident {
            let var = &vars[c.var_ix];
            assert(ss[c.var_ix as int] == site(*var));
            let hap = if h == 0 {
                var.genotype.0
            } else {
                var.genotype.1
            };
            if var.phase_set.is_some() && c.allele != hap {
                m.push(c.var_ix);
            }
        }
        j += 1;
    }
    m
}

proof fn lemma_occurrences_mono(s: Seq<usize>, v: int, a: int, b: int)
    requires
        a <= b,
    ensures
        occurrences(s, v, a) <= occurrences(s, v, b),
    decreases b - a,
{
    if a < b {
        lemma_occurrences_mono(s, v, a, b - 1);
    }
}

proof fn lemma_mec_count_mono(fs: Seq<Fragment>, ss: Seq<Site>, v: int, a: int, b: int)
    requires
        a <= b,
    ensures
        mec_count(fs, ss, v, a) <= mec_count(fs, ss, v, b),
    decreases b - a,
{
    if a < b {
        lemma_mec_count_mono(fs, ss, v, a, b - 1);
    }
}

proof fn lemma_block_mono(fs: Seq<Fragment>, ss: Seq<Site>, ps: usize, a: int, b: int)
    requires
        a <= b,
    ensures
        block_mec(fs, ss, ps, a) <= block_mec(fs, ss, ps, b),
        block_total(ss, ps, a) <= block_total(ss, ps, b),
    decreases b - a,
{
    if a < b {
        lemma_block_mono(fs, ss, ps, a, b - 1);
    }
}

/// Every variant in a mismatch list is a phased variant of the table.
proof fn lemma_mismatches_phased(cs: Seq<FragCall>, ss: Seq<Site>, h: int, n: int)
    ensures
        forall|k: int|
            0 <= k < mismatches(cs, ss, h, n).len() ==> #[trigger] mismatches(cs, ss, h, n)[k]
                < ss.len() && ss[mismatches(cs, ss, h, n)[k] as int].1 is Some,
    decreases n,
{
    if n > 0 {
        lemma_mismatches_phased(cs, ss, h, n - 1);
    }
}

proof fn lemma_charged_phased(f: Fragment, ss: Seq<Site>)
    ensures
        forall|k: int|
            0 <= k < charged(f, ss).len() ==> #[trigger] charged(f, ss)[k] < ss.len() && ss[charged(
                f,
                ss,
            )[k] as int].1 is Some,
{
    lemma_mismatches_phased(f.calls@, ss, 0, f.calls@.len() as int);
    lemma_mismatches_phased(f.calls@, ss, 1, f.calls@.len() as int);
}

proof fn lemma_occurrences_absent(s: Seq<usize>, v: int, n: int)
    requires
        n <= s.len(),
        forall|k: int| 0 <= k < n ==> s[k] != v,
    ensures
        occurrences(s, v, n) == 0,
    decreases n,
{
    if n > 0 {
        lemma_occurrences_absent(s, v, n - 1);
    }
}

proof fn lemma_unphased_count(fs: Seq<Fragment>, ss: Seq<Site>, v: int, n: int)
    requires
        0 <= v < ss.len(),
        ss[v].1 is None,
        n <= fs.len(),
    ensures
        mec_count(fs, ss, v, n) == 0,
    decreases n,
{
    if n > 0 {
        lemma_unphased_count(fs, ss, v, n - 1);
        let c = charged(fs[n - 1], ss);
        lemma_charged_phased(fs[n - 1], ss);
        lemma_occurrences_absent(c, v, c.len() as int);
    }
}

/// No error is ever charged to an unphased variant.
pub proof fn lemma_unphased_variant_mec(fs: Seq<Fragment>, ss: Seq<Site>, v: int)
    requires
        0 <= v < ss.len(),
        ss[v].1 is None,
    ensures
        variant_mec(fs, ss, v) == 0,
{
    lemma_unphased_count(fs, ss, v, fs.len() as int);
}

/// The site totals of the phased variants; `None` when one of them exceeds
/// `usize`. Fails when a phased variant has no observations.
fn site_totals(vars: &Vec<Var>) -> (r: Result<Option<Vec<usize>>, MecError>)
    ensures
        r is Err <==> has_zero_total(sites(vars@)),
        r is Err ==> r == Err::<Option<Vec<usize>>, MecError>(MecError::ZeroTotal),
        r matches Ok(None) ==> exists|i: int|
            0 <= i < vars@.len() && (#[trigger] vars@[i]).phase_set is Some && site_total(
                site(vars@[i]),
            ) > usize::MAX,
        r matches Ok(Some(t)) ==> t@.len() == vars@.len() && forall|i: int|
            0 <= i < vars@.len() && (#[trigger] vars@[i]).phase_set is Some ==> t@[i] as nat
                == site_total(site(vars@[i])),
{
    let ghost ss = sites(vars@);
    let mut totals: Vec<usize> = Vec::new();
    let mut overflow = false;
    let ghost mut big: int = 0;
    let mut i: usize = 0;
    while i < vars.len()
        invariant
            ss == sites(vars@),
            i <= vars@.len(),
            totals@.len() == i,
            forall|k: int|
                0 <= k < i && (#[trigger] vars@[k]).phase_set is Some ==> site_total(site(vars@[k]))
                    > 0,
            !overflow ==> forall|k: int|
                0 <= k < i && (#[trigger] vars@[k]).phase_set is Some ==> totals@[k] as nat
                    == site_total(site(vars@[k])),
            overflow ==> 0 <= big < vars@.len() && vars@[big].phase_set is Some && site_total(
                site(vars@[big]),
            ) > usize::MAX,
        decreases vars@.len() - i,
    {
        let var = &vars[i];
        if var.phase_set.is_some() {
            match sum_counts(&var.allele_counts) {
                Some(t) => {
                    if t == 0 {
                        assert(ss[i as int] == site(vars@[i as int]));
                        return Err(MecError::ZeroTotal);
                    }
                    totals.push(t);
                },
                None => {
                    proof {
                        big = i as int;
                    }
                    overflow = true;
                    totals.push(0);
                },
            }
        } else {
            totals.push(0);
        }
        i += 1;
    }
    assert(!has_zero_total(ss)) by {
        assert forall|k: int| 0 <= k < ss.len() && (#[trigger] ss[k]).1 is Some implies site_total(
            ss[k],
        ) != 0 by {
            assert(ss[k] == site(vars@[k]));
        }
    }
    if overflow {
        Ok(None)
    } else {
        Ok(Some(totals))
    }
}

/// The errors charged to each variant; `None` when a count exceeds `usize`.
fn error_counts(flist: &Vec<Fragment>, vars: &Vec<Var>) -> (r: Option<Vec<usize>>)
    requires
        indices_below(flist@, vars@.len() as int),
    ensures
        match r {
            Some(m) => m@.len() == vars@.len() && forall|v: int|
                0 <= v < vars@.len() ==> #[trigger] m@[v] as nat == variant_mec(
                    flist@,
                    sites(vars@),
                    v,
                ),
            None => exists|v: int|
                0 <= v < vars@.len() && #[trigger] variant_mec(flist@, sites(vars@), v)
                    > usize::MAX,
        },
{
    let ghost fs = flist@;
    let ghost ss = sites(vars@);
    let n = vars.len();
    let mut mecs: Vec<usize> = Vec::new();
    while mecs.len() < n
        invariant
            mecs@.len() <= n,
            forall|v: int| 0 <= v < mecs@.len() ==> #[trigger] mecs@[v] == 0,
        decreases n - mecs@.len(),
    {
        mecs.push(0);
    }
    let mut i: usize = 0;
    while i < flist.len()
        invariant
            fs == flist@,
            ss == sites(vars@),
            n == vars@.len(),
            ss.len() == n,
            indices_below(fs, n as int),
            i <= fs.len(),
            mecs@.len() == n,
            forall|v: int| 0 <= v < n ==> #[trigger] mecs@[v] as nat == mec_count(fs, ss, v, i as int),
        decreases fs.len() - i,
    {
        let frag = &flist[i];
        assert forall|j: int| 0 <= j < frag.calls@.len() implies (#[trigger] frag.calls@[j]).var_ix
            < vars@.len() by {
            assert(fs[i as int].calls@[j] == frag.calls@[j]);
        }
        let m0 = fragment_mismatches(frag, vars, 0);
        let m1 = fragment_mismatches(frag, vars, 1);
        let chosen = if m0.len() <= m1.len() {
            m0
        } else {
            m1
        };
        let ghost c = chosen@;
        assert(c == charged(fs[i as int], ss));
        proof {
            lemma_charged_phased(fs[i as int], ss);
        }
        let mut k: usize = 0;
        while k < chosen.len()
            invariant
                fs == flist@,
                ss == sites(vars@),
                n == vars@.len(),
                ss.len() == n,
                c == chosen@,
                c == charged(fs[i as int], ss),
                forall|q: int| 0 <= q < c.len() ==> #[trigger] c[q] < ss.len(),
                i < fs.len(),
                k <= c.len(),
                mecs@.len() == n,
                forall|v: int|
                    0 <= v < n ==> #[trigger] mecs@[v] as nat == mec_count(fs, ss, v, i as int)
                        + occurrences(c, v, k as int),
            decreases c.len() - k,
        {
            let ix = chosen[k];
            assert(ix < n);
            if mecs[ix] == usize::MAX {
                proof {
                    lemma_occurrences_mono(c, ix as int, k + 1, c.len() as int);
                    lemma_mec_count_mono(fs, ss, ix as int, i + 1, fs.len() as int);
                    assert(variant_mec(fs, ss, ix as int) > usize::MAX);
                    assert(variant_mec(flist@, sites(vars@), ix as int) > usize::MAX);
                }
                return None;
            }
            mecs.set(ix, mecs[ix] + 1);
            k += 1;
        }
        i += 1;
    }
    Some(mecs)
}

/// The errors and the allele observations of each phase block, keyed by
/// phase set; `None` when a block's sum exceeds `usize`.
fn block_sums(flist: &Vec<Fragment>, vars: &Vec<Var>, mecs: &Vec<usize>, totals: &Vec<usize>) -> (r:
    Option<HashMap<usize, (usize, usize)>>)
    requires
        mecs@.len() == vars@.len(),
        totals@.len() == vars@.len(),
        forall|v: int|
            0 <= v < vars@.len() ==> #[trigger] mecs@[v] as nat == variant_mec(
                flist@,
                sites(vars@),
                v,
            ),
        forall|v: int|
            0 <= v < vars@.len() && (#[trigger] vars@[v]).phase_set is Some ==> totals@[v] as nat
                == site_total(site(vars@[v])),
    ensures
        match r {
            Some(m) => forall|v: int|
                #![trigger vars@[v]]
                0 <= v < vars@.len() && vars@[v].phase_set is Some ==> {
                    let ps = vars@[v].phase_set->0;
                    &&& m@.contains_key(ps)
                    &&& m@[ps].0 as nat == block_mec(flist@, sites(vars@), ps, vars@.len() as int)
                    &&& m@[ps].1 as nat == block_total(sites(vars@), ps, vars@.len() as int)
                },
            None => exists|v: int|
                #![trigger vars@[v]]
                0 <= v < vars@.len() && vars@[v].phase_set is Some && (block_mec(
                    flist@,
                    sites(vars@),
                    vars@[v].phase_set->0,
                    vars@.len() as int,
                ) > usize::MAX || block_total(
                    sites(vars@),
                    vars@[v].phase_set->0,
                    vars@.len() as int,
                ) > usize::MAX),
        },
{
    broadcast use vstd::std_specs::hash::group_hash_axioms;

    let ghost fs = flist@;
    let ghost ss = sites(vars@);
    let ghost n = vars@.len() as int;
    let mut m: HashMap<usize, (usize, usize)> = HashMap::new();
    let mut i: usize = 0;
    while i < vars.len()
        invariant
            fs == flist@,
            ss == sites(vars@),
            n == vars@.len(),
            mecs@.len() == n,
            totals@.len() == n,
            forall|v: int| 0 <= v < n ==> #[trigger] mecs@[v] as nat == variant_mec(fs, ss, v),
            forall|v: int|
                0 <= v < n && (#[trigger] vars@[v]).phase_set is Some ==> totals@[v] as nat
                    == site_total(site(vars@[v])),
            i <= n,
            forall|ps: usize|
                #[trigger] m@.contains_key(ps) ==> m@[ps].0 as nat == block_mec(
                    fs,
                    ss,
                    ps,
                    i as int,
                ) && m@[ps].1 as nat == block_total(ss, ps, i as int),
            forall|ps: usize|
                !#[trigger] m@.contains_key(ps) ==> block_mec(fs, ss, ps, i as int) == 0
                    && block_total(ss, ps, i as int) == 0,
            forall|v: int|
                0 <= v < i && (#[trigger] vars@[v]).phase_set is Some ==> m@.contains_key(
                    vars@[v].phase_set->0,
                ),
        decreases n - i,
    {
        assert(ss[i as int] == site(vars@[i as int]));
        match vars[i].phase_set {
            Some(ps) => {
                let (bm, bt) = match m.get(&ps) {
                    Some(p) => *p,
                    None => (0, 0),
                };
                if bm > usize::MAX - mecs[i] || bt > usize::MAX - totals[i] {
                    proof {
                        lemma_block_mono(fs, ss, ps, i + 1, n);
                    }
                    return None;
                }
                m.insert(ps, (bm + mecs[i], bt + totals[i]));
            },
            None => {},
        }
        i += 1;
    }
    Some(m)
}

/// Computes the minimum-error-correction statistics of the phasing in
/// `varlist` against the fragments.
///
/// Each fragment is charged with the confident calls at phased variants that
/// disagree with the haplotype it fits best (haplotype 0 on a tie); a
/// variant's `mec` is the number of such calls at it. Phased variants get
/// their own error fraction and their block's; unphased variants keep zero
/// statistics. The statistics are recomputed from scratch on every call. A
/// call that names no variant of the table, a phased variant without allele
/// observations, and a sum that does not fit in `usize` are refused, and then
/// `varlist` is left as it was.
pub fn calculate_mec(flist: &Vec<Fragment>, varlist: &mut VarList) -> (r: Result<(), MecError>)
    ensures
        r == (match mec_error(flist@, sites(old(varlist).lst@)) {
            Some(e) => Err::<(), MecError>(e),
            None => Ok(()),
        }),
        r is Ok ==> mec_stats(flist@, old(varlist).lst@, final(varlist).lst@),
        r is Err ==> *final(varlist) == *old(varlist),
{
    let ghost fs = flist@;
    let ghost old_vars = varlist.lst@;
    let ghost ss = sites(old_vars);
    let n = varlist.lst.len();
    if !calls_in_range(flist, n) {
        return Err(MecError::InvalidIndex);
    }
    let totals = match site_totals(&varlist.lst) {
        Err(e) => {
            return Err(e);
        },
        Ok(None) => {
            proof {
                let i = choose|i: int|
                    0 <= i < old_vars.len() && (#[trigger] old_vars[i]).phase_set is Some
                        && site_total(site(old_vars[i])) > usize::MAX;
                assert(ss[i] == site(old_vars[i]));
            }
            return Err(MecError::Overflow);
        },
        Ok(Some(t)) => t,
    };
    let mecs = match error_counts(flist, &varlist.lst) {
        None => {
            return Err(MecError::Overflow);
        },
        Some(m) => m,
    };
    let blocks = match block_sums(flist, &varlist.lst, &mecs, &totals) {
        None => {
            proof {
                let i = choose|i: int|
                    #![trigger old_vars[i]]
                    0 <= i < old_vars.len() && old_vars[i].phase_set is Some && (block_mec(
                        fs,
                        ss,
                        old_vars[i].phase_set->0,
                        old_vars.len() as int,
                    ) > usize::MAX || block_total(
                        ss,
                        old_vars[i].phase_set->0,
                        old_vars.len() as int,
                    ) > usize::MAX);
                assert(ss[i] == site(old_vars[i]));
            }
            return Err(MecError::Overflow);
        },
        Some(b) => b,
    };
    assert(counts_fit(fs, ss)) by {
        assert forall|v: int| 0 <= v < ss.len() implies #[trigger] variant_mec(fs, ss, v)
            <= usize::MAX by {
            assert(mecs@[v] as nat == variant_mec(fs, ss, v));
        }
        assert forall|i: int| 0 <= i < ss.len() && (#[trigger] ss[i]).1 is Some implies {
            let ps = ss[i].1->0;
            &&& site_total(ss[i]) <= usize::MAX
            &&& block_mec(fs, ss, ps, ss.len() as int) <= usize::MAX
            &&& block_total(ss, ps, ss.len() as int) <= usize::MAX
        } by {
            assert(ss[i] == site(old_vars[i]));
            assert(old_vars[i].phase_set is Some);
        }
    }
    let mut i: usize = 0;
    while i < n
        invariant
            fs == flist@,
            ss == sites(old_vars),
            n == old_vars.len(),
            varlist.lst@.len() == n,
            mecs@.len() == n,
            totals@.len() == n,
            forall|v: int| 0 <= v < n ==> #[trigger] mecs@[v] as nat == variant_mec(fs, ss, v),
            forall|v: int|
                0 <= v < n && (#[trigger] old_vars[v]).phase_set is Some ==> totals@[v] as nat
                    == site_total(site(old_vars[v])),
            forall|v: int|
                #![trigger old_vars[v]]
                0 <= v < n && old_vars[v].phase_set is Some ==> {
                    let ps = old_vars[v].phase_set->0;
                    &&& blocks@.contains_key(ps)
                    &&& blocks@[ps].0 as nat == block_mec(fs, ss, ps, n as int)
                    &&& blocks@[ps].1 as nat == block_total(ss, ps, n as int)
                },
            i <= n,
            forall|k: int| i <= k < n ==> #[trigger] varlist.lst@[k] == old_vars[k],
            forall|k: int|
                #![trigger varlist.lst@[k]]
                0 <= k < i ==> {
                    let new = varlist.lst@[k];
                    &&& site(new) == site(old_vars[k])
                    &&& new.mec as int == variant_mec(fs, ss, k)
                    &&& match old_vars[k].phase_set {
                        Some(ps) => {
                            &&& new.mec_frac_variant == Ratio {
                                num: variant_mec(fs, ss, k) as usize,
                                den: site_total(ss[k]) as usize,
                            }
                            &&& new.mec_frac_block == Ratio {
                                num: block_mec(fs, ss, ps, ss.len() as int) as usize,
                                den: block_total(ss, ps, ss.len() as int) as usize,
                            }
                        },
                        None => {
                            &&& new.mec == 0
                            &&& new.mec_frac_variant == zero_ratio()
                            &&& new.mec_frac_block == zero_ratio()
                        },
                    }
                },
        decreases n - i,
    {
        assert(varlist.lst@[i as int] == old_vars[i as int]);
        assert(ss[i as int] == site(old_vars[i as int]));
        let m = mecs[i];
        match varlist.lst[i].phase_set {
            Some(ps) => {
                let (bm, bt) = *blocks.get(&ps).unwrap();
                varlist.lst[i].mec = m;
                varlist.lst[i].mec_frac_variant = Ratio { num: m, den: totals[i] };
                varlist.lst[i].mec_frac_block = Ratio { num: bm, den: bt };
            },
            None => {
                proof {
                    lemma_unphased_variant_mec(fs, ss, i as int);
                }
                varlist.lst[i].mec = m;
                varlist.lst[i].mec_frac_variant = Ratio { num: 0, den: 1 };
                varlist.lst[i].mec_frac_block = Ratio { num: 0, den: 1 };
            },
        }
        i += 1;
    }
    Ok(())
}

/// Running the evaluator a second time, on the table that the first run
/// wrote, ends the same way and writes the same statistics: a run reads only
/// the genotypes, phase sets and allele counts, which it leaves untouched.
pub proof fn lemma_mec_idempotent(fs: Seq<Fragment>, v0: Seq<Var>, v1: Seq<Var>, v2: Seq<Var>)
    requires
        mec_stats(fs, v0, v1),
        mec_stats(fs, v1, v2),
    ensures
        mec_error(fs, sites(v1)) == mec_error(fs, sites(v0)),
        v2.len() == v1.len(),
        forall|i: int|
            0 <= i < v1.len() ==> {
                &&& site(#[trigger] v2[i]) == site(v1[i])
                &&& v2[i].mec == v1[i].mec
                &&& v2[i].mec_frac_variant == v1[i].mec_frac_variant
                &&& v2[i].mec_frac_block == v1[i].mec_frac_block
            },
{
    assert(sites(v1) =~= sites(v0)) by {
        assert forall|i: int| 0 <= i < v1.len() implies sites(v1)[i] == sites(v0)[i] by {
            assert(site(v1[i]) == site(v0[i]));
        }
    }
    assert forall|i: int| 0 <= i < v1.len() implies {
        &&& site(#[trigger] v2[i]) == site(v1[i])
        &&& v2[i].mec == v1[i].mec
        &&& v2[i].mec_frac_variant == v1[i].mec_frac_variant
        &&& v2[i].mec_frac_block == v1[i].mec_frac_block
    } by {
        assert(site(v1[i]) == site(v0[i]));
        assert(v1[i].phase_set == v0[i].phase_set);
        assert(sites(v1)[i] == sites(v0)[i]);
    }
}

} // verus!
