use vstd::prelude::*;
use vstd::utf8::encode_utf8;

use crate::fragment::{calls_in_range, indices_below, FragCall, Fragment};
use crate::quality::{qual_byte, qual_byte_spec};

verus! {

/// The byte that separates fields of a fragment record.
pub const SPACE: u8 = 32;

/// The byte of the digit zero.
pub const ZERO: u8 = 48;

/// The byte that ends a fragment record.
pub const NUL: u8 = 0;

/// Why a fragment list could not be encoded.
#[derive(Clone, Copy, Debug, PartialEq, Eq, Structural)]
pub enum EncodeError {
    /// A call names a variant outside the inclusion mask.
    InvalidIndex,
    /// A call's allele is not a single decimal digit.
    InvalidAllele,
}

/// The byte of decimal digit `d`.
pub open spec fn digit(d: nat) -> u8 {
    (ZERO + d) as u8
}

/// The decimal spelling of `n`, most significant digit first, without
/// leading zeros.
pub open spec fn decimal(n: nat) -> Seq<u8>
    decreases n,
{
    if n < 10 {
        seq![digit(n)]
    } else {
        decimal(n / 10).push(digit(n % 10))
    }
}

/// Every call of every fragment carries a single-digit allele.
pub open spec fn alleles_are_digits(fs: Seq<Fragment>) -> bool {
    forall|i: int, j: int|
        0 <= i < fs.len() && 0 <= j < fs[i].calls@.len() ==> (#[trigger] fs[i].calls@[j]).allele
            < 10
}

/// A call takes part in the encoding: its variant is in the mask and the call
/// is confident.
pub open spec fn qualifies(c: FragCall, pv: Seq<bool>) -> bool {
    c.var_ix < pv.len() && pv[c.var_ix as int] && c.confident
}

/// The qualifying calls among the first `n` calls of `cs`, in order.
pub open spec fn qualifying(cs: Seq<FragCall>, pv: Seq<bool>, n: int) -> Seq<FragCall>
    decreases n,
{
    if n <= 0 {
        Seq::empty()
    } else {
        let q = qualifying(cs, pv, n - 1);
        if qualifies(cs[n - 1], pv) {
            q.push(cs[n - 1])
        } else {
            q
        }
    }
}

/// The qualifying calls of a fragment.
pub open spec fn qualifying_calls(f: Fragment, pv: Seq<bool>) -> Seq<FragCall> {
    qualifying(f.calls@, pv, f.calls@.len() as int)
}

/// Call `i` of `qs` opens a new block: it is the first, or its variant does
/// not directly follow the variant of the call before it.
pub open spec fn starts_block(qs: Seq<FragCall>, i: int) -> bool {
    i == 0 || qs[i].var_ix != qs[i - 1].var_ix + 1
}

/// The number of contiguous runs of variants in `qs`.
pub open spec fn block_count(qs: Seq<FragCall>) -> nat
    decreases qs.len(),
{
    if qs.len() == 0 {
        0
    } else {
        block_count(qs.drop_last()) + if starts_block(qs, qs.len() - 1) {
            1nat
        } else {
            0nat
        }
    }
}

/// The allele part of a record: each block opens with a space, the 1-based
/// index of its first variant and a space, followed by the allele digits of
/// the block's calls.
pub open spec fn allele_runs(qs: Seq<FragCall>) -> Seq<u8>
    decreases qs.len(),
{
    if qs.len() == 0 {
        Seq::empty()
    } else {
        let c = qs.last();
        let head = if starts_block(qs, qs.len() - 1) {
            seq![SPACE] + decimal(c.var_ix as nat + 1) + seq![SPACE]
        } else {
            Seq::empty()
        };
        allele_runs(qs.drop_last()) + head.push(digit(c.allele as nat))
    }
}

/// One quality byte per call, in order.
pub open spec fn quality_string(qs: Seq<FragCall>) -> Seq<u8> {
    qs.map_values(|c: FragCall| qual_byte_spec(c.phred))
}

/// A fragment is encoded when it has at least two qualifying calls.
pub open spec fn is_encoded(f: Fragment, pv: Seq<bool>) -> bool {
    qualifying_calls(f, pv).len() >= 2
}

/// The record of a fragment: block count, id, allele runs and qualities,
/// separated by spaces and ended by a NUL byte.
pub open spec fn record(f: Fragment, pv: Seq<bool>) -> Seq<u8> {
    let qs = qualifying_calls(f, pv);
    decimal(block_count(qs)) + seq![SPACE] + encode_utf8(f.id@) + seq![SPACE] + allele_runs(qs)
        + seq![SPACE] + quality_string(qs) + seq![NUL]
}

/// The records of the encoded fragments among the first `n` of `fs`, in order.
pub open spec fn records(fs: Seq<Fragment>, pv: Seq<bool>, n: int) -> Seq<Seq<u8>>
    decreases n,
{
    if n <= 0 {
        Seq::empty()
    } else {
        let r = records(fs, pv, n - 1);
        if is_encoded(fs[n - 1], pv) {
            r.push(record(fs[n - 1], pv))
        } else {
            r
        }
    }
}

/// Appends the decimal spelling of `n` to `out`.
pub fn push_decimal(out: &mut Vec<u8>, n: usize)
    ensures
        final(out)@ == old(out)@ + decimal(n as nat),
    decreases n,
{
    if n >= 10 {
        push_decimal(out, n / 10);
    }
    out.push(ZERO + (n % 10) as u8);
    assert(final(out)@ =~= old(out)@ + decimal(n as nat));
}

/// Checks that every call of every fragment carries a single-digit allele.
fn alleles_in_range(flist: &Vec<Fragment>) -> (r: bool)
    ensures
        r == alleles_are_digits(flist@),
{
    let mut i: usize = 0;
    while i < flist.len()
        invariant
            i <= flist@.len(),
            alleles_are_digits(flist@.take(i as int)),
        decreases flist@.len() - i,
    {
        let calls = &flist[i].calls;
        let mut j: usize = 0;
        while j < calls.len()
            invariant
                i < flist@.len(),
                calls@ == flist@[i as int].calls@,
                j <= calls@.len(),
                forall|k: int| 0 <= k < j ==> (#[trigger] calls@[k]).allele < 10,
            decreases calls@.len() - j,
        {
            if calls[j].allele >= 10 {
                assert(flist@[i as int].calls@[j as int].allele >= 10);
                return false;
            }
            j += 1;
        }
        assert(alleles_are_digits(flist@.take(i + 1))) by {
            assert forall|a: int, b: int|
                0 <= a < i + 1 && 0 <= b < flist@.take(i + 1)[a].calls@.len() implies (
                #[trigger] flist@.take(i + 1)[a].calls@[b]).allele < 10 by {
                if a < i {
                    assert(flist@.take(i as int)[a] == flist@[a]);
                }
            }
        }
        i += 1;
    }
    assert(flist@.take(i as int) =~= flist@);
    true
}

/// Encodes one fragment: its record when it has at least two qualifying
/// calls, `None` otherwise.
fn encode_fragment(frag: &Fragment, phase_variant: &Vec<bool>) -> (r: Option<Vec<u8>>)
    requires
        forall|j: int|
            0 <= j < frag.calls@.len() ==> (#[trigger] frag.calls@[j]).var_ix
                < phase_variant@.len() && frag.calls@[j].allele < 10,
    ensures
        match r {
            Some(line) => is_encoded(*frag, phase_variant@) && line@ == record(
                *frag,
                phase_variant@,
            ),
            None => !is_encoded(*frag, phase_variant@),
        },
{
    let ghost pv = phase_variant@;
    let ghost cs = frag.calls@;
    let ghost mut qs: Seq<FragCall> = Seq::empty();
    let n_var = phase_variant.len();
    let mut prev: Option<usize> = None;
    let mut n_calls: usize = 0;
    let mut blocks: usize = 0;
    let mut runs: Vec<u8> = Vec::new();
    let mut quals: Vec<u8> = Vec::new();
    let mut j: usize = 0;
    while j < frag.calls.len()
        invariant
            cs == frag.calls@,
            pv == phase_variant@,
            n_var == pv.len(),
            j <= cs.len(),
            forall|k: int|
                0 <= k < cs.len() ==> (#[trigger] cs[k]).var_ix < pv.len() && cs[k].allele < 10,
            qs == qualifying(cs, pv, j as int),
            n_calls as int == qs.len(),
            n_calls <= j,
            blocks as int == block_count(qs),
            blocks <= n_calls,
            runs@ == allele_runs(qs),
            quals@ == quality_string(qs),
            prev == (if qs.len() == 0 {
                None::<usize>
            } else {
                Some(qs.last().var_ix)
            }),
            forall|k: int| 0 <= k < qs.len() ==> (#[trigger] qs[k]).var_ix < pv.len(),
        decreases cs.len() - j,
    {
        let c = frag.calls[j];
        assert(c == cs[j as int]);
        assert(c.var_ix < phase_variant@.len());
        if phase_variant[c.var_ix] && c.confident {
            let starts = match prev {
                None => true,
                Some(p) => {
                    assert(p == qs[qs.len() - 1].var_ix);
                    c.var_ix != p + 1
                },
            };
            let ghost nq = qs.push(c);
            assert(nq.drop_last() =~= qs);
            assert(starts == starts_block(nq, nq.len() - 1));
            if starts {
                blocks += 1;
                runs.push(SPACE);
                push_decimal(&mut runs, c.var_ix + 1);
                runs.push(SPACE);
            }
            runs.push(ZERO + c.allele);
            quals.push(qual_byte(c.phred));
            prev = Some(c.var_ix);
            n_calls += 1;
            proof {
                assert(runs@ =~= allele_runs(nq));
                assert(quals@ =~= quality_string(nq));
                qs = nq;
            }
        }
        j += 1;
    }
    assert(cs.len() as int == j);
    if n_calls < 2 {
        return None;
    }
    let mut line: Vec<u8> = Vec::new();
    push_decimal(&mut line, blocks);
    line.push(SPACE);
    let id = frag.id.as_str().as_bytes();
    let ghost before = line@;
    let mut k: usize = 0;
    while k < id.len()
        invariant
            k <= id@.len(),
            line@ == before + id@.take(k as int),
        decreases id@.len() - k,
    {
        line.push(id[k]);
        k += 1;
        assert(line@ =~= before + id@.take(k as int));
    }
    assert(id@.take(k as int) =~= id@);
    line.push(SPACE);
    line.append(&mut runs);
    line.push(SPACE);
    line.append(&mut quals);
    line.push(NUL);
    assert(line@ =~= record(*frag, pv));
    Some(line)
}

/// Serialises the fragments into the phasing solver's fragment buffer.
///
/// A call qualifies when its variant is set in `phase_variant` and the call
/// is confident. Each fragment with at least two qualifying calls yields one
/// record, in input order; the others are left out. A call that names a
/// variant outside the mask is refused, and so is an allele that is not a
/// single digit.
pub fn generate_flist_buffer(flist: &Vec<Fragment>, phase_variant: &Vec<bool>) -> (r: Result<
    Vec<Vec<u8>>,
    EncodeError,
>)
    ensures
        r == Err::<Vec<Vec<u8>>, EncodeError>(EncodeError::InvalidIndex) <==> !indices_below(
            flist@,
            phase_variant@.len() as int,
        ),
        r == Err::<Vec<Vec<u8>>, EncodeError>(EncodeError::InvalidAllele) <==> indices_below(
            flist@,
            phase_variant@.len() as int,
        ) && !alleles_are_digits(flist@),
        r is Ok <==> indices_below(flist@, phase_variant@.len() as int) && alleles_are_digits(
            flist@,
        ),
        r matches Ok(buf) ==> buf@.map_values(|line: Vec<u8>| line@) == records(
            flist@,
            phase_variant@,
            flist@.len() as int,
        ),
{
    if !calls_in_range(flist, phase_variant.len()) {
        return Err(EncodeError::InvalidIndex);
    }
    if !alleles_in_range(flist) {
        return Err(EncodeError::InvalidAllele);
    }
    let ghost pv = phase_variant@;
    let mut buffer: Vec<Vec<u8>> = Vec::new();
    let mut i: usize = 0;
    while i < flist.len()
        invariant
            pv == phase_variant@,
            i <= flist@.len(),
            indices_below(flist@, pv.len() as int),
            alleles_are_digits(flist@),
            buffer@.map_values(|line: Vec<u8>| line@) == records(flist@, pv, i as int),
        decreases flist@.len() - i,
    {
        let frag = &flist[i];
        assert forall|j: int| 0 <= j < frag.calls@.len() implies (#[trigger] frag.calls@[j]).var_ix
            < pv.len() && frag.calls@[j].allele < 10 by {
            assert(flist@[i as int].calls@[j] == frag.calls@[j]);
        }
        let ghost old_buf = buffer@;
        match encode_fragment(frag, phase_variant) {
            Some(line) => {
                buffer.push(line);
                assert(buffer@.map_values(|line: Vec<u8>| line@) =~= old_buf.map_values(
                    |line: Vec<u8>| line@,
                ).push(line@));
            },
            None => {},
        }
        i += 1;
    }
    Ok(buffer)
}

} // verus!
