//! Checkpoint building, proof assembly, and the textual report.

use vstd::prelude::*;
use crate::error::MmrError;
use crate::digest::{Digest, hex_encoded, encode_digest};
use crate::num::{dec_str_of, u64_to_string};
use crate::resolver::{Peak, SubgraphData, PositionedDigest, lookup_model, resolve};
use crate::mmr::{
    leaf_pos, lemma_leaf_pos_ge_one, peaks_of, climb_ok, climb_path, target_idx,
    dvs, all_wf, bag_of, bag_peaks, gen_proof_positions, gen_proof, proof_items_model,
};

verus! {

/// A checkpoint: the MMR root and ordered peak list at a block height.
/// Created once per invocation; immutable after construction.
#[derive(Debug)]
pub struct CheckPointInfo {
    pub block_number: u64,
    pub position: u64,
    pub peaks: Vec<PositionedDigest>,
    pub mmr_root: Digest,
}

/// An inclusion proof: the covered tree size and the ordered item list.
/// The order of the items is significant: scrambling it invalidates
/// verification even though each item is individually correct.
#[derive(Debug)]
pub struct Proof {
    pub mmr_size: u64,
    pub items: Vec<Digest>,
}

pub open spec fn peak_digests(s: Seq<PositionedDigest>) -> Seq<Seq<u8>> {
    Seq::new(s.len(), |i: int| s[i].digest@)
}

impl CheckPointInfo {
    pub open spec fn wf(&self) -> bool {
        &&& self.mmr_root.wf()
        &&& forall|i: int| 0 <= i < self.peaks@.len() ==> (#[trigger] self.peaks@[i]).digest.wf()
    }
}

/// Everything `build_checkpoint` promises of a checkpoint it hands out,
/// as a function of the height and the response entries alone.
pub open spec fn checkpoint_ok(height: u64, entries: Seq<Peak>, c: CheckPointInfo) -> bool {
    let size = c.position;
    &&& c.block_number == height
    &&& c.position as int == leaf_pos(height)
    &&& c.peaks@.len() == peaks_of(size).len()
    &&& forall|i: int| 0 <= i < c.peaks@.len() ==> (#[trigger] c.peaks@[i]).position == peaks_of(size)[i]
    &&& forall|i: int| 0 <= i < c.peaks@.len() ==> (#[trigger] c.peaks@[i]).digest.wf()
        && c.peaks@[i].digest@ == lookup_model(entries, peaks_of(size)[i])->Ok_0
    &&& c.mmr_root.wf()
    &&& c.mmr_root@ == bag_of(peak_digests(c.peaks@))
}

/// Builds the checkpoint for a block height from one batched response.
///
/// The root always equals the peak-bagging function applied to the peak
/// list the checkpoint itself carries.  Height 0 denotes no non-trivial
/// tree and is rejected with `InvalidHeight` before anything else;
/// resolver failures propagate unchanged.
pub fn build_checkpoint(height: u64, data: &SubgraphData) -> (r: Result<CheckPointInfo, MmrError>)
    requires
        height < 0x7fff_ffff_ffff_ffff,
    ensures
        height == 0 <==> r == Err::<CheckPointInfo, MmrError>(MmrError::InvalidHeight),
        height > 0 ==> (r.is_ok() <==> forall|i: int|
            0 <= i < peaks_of(leaf_pos(height) as u64).len()
            ==> (#[trigger] lookup_model(data.data.node_entities@, peaks_of(leaf_pos(height) as u64)[i])).is_ok()),
        r matches Ok(c) ==> height > 0 && checkpoint_ok(height, data.data.node_entities@, c) && c.wf(),
        r matches Err(e) ==> (height == 0 && e == MmrError::InvalidHeight) || exists|i: int| {
            &&& 0 <= i < peaks_of(leaf_pos(height) as u64).len()
            &&& (#[trigger] lookup_model(data.data.node_entities@, peaks_of(leaf_pos(height) as u64)[i]))
                == Err::<Seq<u8>, MmrError>(e)
            &&& forall|j: int| 0 <= j < i
                ==> (#[trigger] lookup_model(data.data.node_entities@, peaks_of(leaf_pos(height) as u64)[j])).is_ok()
        },
{
    if height == 0 {
        return Err(MmrError::InvalidHeight);
    }
    let position = ckb_merkle_mountain_range::helper::leaf_index_to_pos(height);
    proof {
        lemma_leaf_pos_ge_one(height);
    }
    let peak_positions = ckb_merkle_mountain_range::helper::get_peaks(position);
    match resolve(&peak_positions, data) {
        Err(e) => Err(e),
        Ok(peaks) => {
            let mut ds: Vec<Digest> = Vec::new();
            let n = peaks.len();
            let mut i: usize = 0;
            while i < n
                invariant
                    n == peaks@.len(),
                    0 <= i <= n,
                    forall|j: int| 0 <= j < n ==> (#[trigger] peaks@[j]).digest.wf(),
                    ds@.len() == i,
                    dvs(ds@) =~= peak_digests(peaks@).take(i as int),
                    all_wf(ds@),
                decreases n - i,
            {
                let ghost old_ds = ds@;
                let d = peaks[i].digest.duplicate();
                proof {
                    assert(d@ == peaks@[i as int].digest@);
                    assert(old_ds.len() == i);
                }
                ds.push(d);
                proof {
                    assert(ds@.len() == i + 1);
                    assert forall|j: int| 0 <= j < i + 1 implies dvs(ds@)[j] == peak_digests(peaks@).take(i + 1)[j] by {
                        assert(peak_digests(peaks@).take(i + 1)[j] == peaks@[j].digest@);
                        assert(dvs(ds@)[j] == ds@[j]@);
                        if j < i {
                            assert(ds@[j] == old_ds[j]);
                            assert(dvs(old_ds)[j] == peak_digests(peaks@).take(i as int)[j]);
                            assert(dvs(old_ds)[j] == old_ds[j]@);
                            assert(peak_digests(peaks@).take(i as int)[j] == peaks@[j].digest@);
                        } else {
                            assert(ds@[j]@ == peaks@[j].digest@);
                        }
                    }
                    assert(dvs(ds@) =~= peak_digests(peaks@).take(i + 1));
                }
                i = i + 1;
            }
            proof {
                assert(dvs(ds@) =~= peak_digests(peaks@));
            }
            let root = bag_peaks(ds);
            Ok(CheckPointInfo { block_number: height, position, peaks, mmr_root: root })
        }
    }
}

/// Determinism: a checkpoint is a function of the height and the backing
/// data.  Two checkpoints built from the same height against an unchanged
/// data set agree in every field.
pub proof fn lemma_build_deterministic(height: u64, entries: Seq<Peak>, c1: CheckPointInfo, c2: CheckPointInfo)
    requires
        checkpoint_ok(height, entries, c1),
        checkpoint_ok(height, entries, c2),
    ensures
        c1.block_number == c2.block_number,
        c1.position == c2.position,
        c1.peaks@.len() == c2.peaks@.len(),
        forall|i: int| 0 <= i < c1.peaks@.len() ==> (#[trigger] c1.peaks@[i]).position == c2.peaks@[i].position,
        forall|i: int| 0 <= i < c1.peaks@.len() ==> (#[trigger] c1.peaks@[i]).digest@ == c2.peaks@[i].digest@,
        c1.mmr_root@ == c2.mmr_root@,
{
    assert(peak_digests(c1.peaks@) =~= peak_digests(c2.peaks@));
}

/// Root consistency: the root a checkpoint carries is exactly the bag of
/// the peak hashes it carries, in their carried order.
pub proof fn lemma_root_consistency(height: u64, entries: Seq<Peak>, c: CheckPointInfo)
    requires
        checkpoint_ok(height, entries, c),
    ensures
        c.mmr_root@ == bag_of(peak_digests(c.peaks@)),
{
}

/// Decides whether a proof may be attempted, before any remote lookup.
///
/// A proof cannot reference a leaf not yet included in the tree, so a
/// verification height at or above the checkpoint height fails fast with
/// `InvalidVerificationTarget`.  On success: the target leaf's position
/// and the size of the tree the proof must cover.
pub fn assemble_positions(verify_height: u64, block_height: u64) -> (r: Result<(u64, u64), MmrError>)
    requires
        block_height < 0x7fff_ffff_ffff_ffff,
    ensures
        r.is_ok() <==> verify_height < block_height,
        r matches Ok(t) ==> t.0 as int == leaf_pos(verify_height) && t.1 as int == leaf_pos(block_height),
        r matches Err(e) ==> e == MmrError::InvalidVerificationTarget,
{
    if verify_height >= block_height {
        return Err(MmrError::InvalidVerificationTarget);
    }
    let target = ckb_merkle_mountain_range::helper::leaf_index_to_pos(verify_height);
    let size = ckb_merkle_mountain_range::helper::leaf_index_to_pos(block_height);
    Ok((target, size))
}

/// The bytes each listed position resolves to (meaningful when every
/// lookup succeeds).
pub open spec fn digests_for(entries: Seq<Peak>, ps: Seq<u64>) -> Seq<Seq<u8>> {
    Seq::new(ps.len(), |i: int| lookup_model(entries, ps[i])->Ok_0)
}

pub open spec fn all_found(entries: Seq<Peak>, ps: Seq<u64>) -> bool {
    forall|i: int| 0 <= i < ps.len() ==> (#[trigger] lookup_model(entries, ps[i])).is_ok()
}

/// Assembles the inclusion proof for the leaf at `target_pos` under the
/// checkpoint covering `mmr_size` nodes, from the two batched responses
/// for the path positions and for the other peaks.
///
/// Position derivation failures surface as `InvalidProof`; then the path
/// lookup and then the peak lookup may fail as the resolver does.
pub fn assemble_proof(
    target_pos: u64,
    mmr_size: u64,
    path_data: &SubgraphData,
    peaks_data: &SubgraphData,
) -> (r: Result<Proof, MmrError>)
    ensures
        ({
            let peaks = peaks_of(mmr_size);
            let k = target_idx(peaks, target_pos);
            let derivable = k >= 0 && climb_ok(target_pos, 0, peaks[k]);
            let path_ps = climb_path(target_pos, 0, peaks[k]);
            let other_ps = peaks.remove(k);
            &&& (r.is_ok() <==> derivable
                && all_found(path_data.data.node_entities@, path_ps)
                && all_found(peaks_data.data.node_entities@, other_ps))
            &&& (r matches Ok(p) ==> {
                &&& p.mmr_size == mmr_size
                &&& all_wf(p.items@)
                &&& dvs(p.items@) == proof_items_model(
                    digests_for(path_data.data.node_entities@, path_ps),
                    digests_for(peaks_data.data.node_entities@, other_ps),
                    k,
                )
            })
            &&& (r matches Err(e) ==> {
                ||| (!derivable && e == MmrError::InvalidProof)
                ||| (derivable && exists|i: int| {
                    &&& 0 <= i < path_ps.len()
                    &&& (#[trigger] lookup_model(path_data.data.node_entities@, path_ps[i]))
                        == Err::<Seq<u8>, MmrError>(e)
                    &&& forall|j: int| 0 <= j < i ==> lookup_model(path_data.data.node_entities@, path_ps[j]).is_ok()
                })
                ||| (derivable && all_found(path_data.data.node_entities@, path_ps) && exists|i: int| {
                    &&& 0 <= i < other_ps.len()
                    &&& (#[trigger] lookup_model(peaks_data.data.node_entities@, other_ps[i]))
                        == Err::<Seq<u8>, MmrError>(e)
                    &&& forall|j: int| 0 <= j < i ==> lookup_model(peaks_data.data.node_entities@, other_ps[j]).is_ok()
                })
            })
        }),
{
    match gen_proof_positions(target_pos, mmr_size) {
        Err(e) => Err(e),
        Ok((path_ps, other_ps, k)) => {
            match resolve(&path_ps, path_data) {
                Err(e) => Err(e),
                Ok(path_pd) => {
                    match resolve(&other_ps, peaks_data) {
                        Err(e) => Err(e),
                        Ok(other_pd) => {
                            let path_ds = take_digests(&path_pd);
                            let other_ds = take_digests(&other_pd);
                            proof {
                                assert(dvs(path_ds@) =~= digests_for(path_data.data.node_entities@, path_ps@));
                                assert(dvs(other_ds@) =~= digests_for(peaks_data.data.node_entities@, other_ps@));
                            }
                            let items = gen_proof(path_ds, other_ds, k);
                            Ok(Proof { mmr_size, items })
                        }
                    }
                }
            }
        }
    }
}

/// The digests of a resolved list, in resolved order.
fn take_digests(pds: &Vec<PositionedDigest>) -> (r: Vec<Digest>)
    requires
        forall|i: int| 0 <= i < pds@.len() ==> (#[trigger] pds@[i]).digest.wf(),
    ensures
        r@.len() == pds@.len(),
        forall|i: int| 0 <= i < pds@.len() ==> (#[trigger] r@[i])@ == pds@[i].digest@,
        all_wf(r@),
{
    let mut r: Vec<Digest> = Vec::new();
    let n = pds.len();
    let mut i: usize = 0;
    while i < n
        invariant
            n == pds@.len(),
            0 <= i <= n,
            r@.len() == i,
            forall|j: int| 0 <= j < n ==> (#[trigger] pds@[j]).digest.wf(),
            forall|j: int| 0 <= j < i ==> (#[trigger] r@[j])@ == pds@[j].digest@,
            all_wf(r@),
        decreases n - i,
    {
        r.push(pds[i].digest.duplicate());
        i = i + 1;
    }
    r
}

/// One line of the report per peak, `,\n`-separated.
pub open spec fn peaks_report(ps: Seq<PositionedDigest>) -> Seq<char>
    decreases ps.len(),
{
    if ps.len() == 0 {
        Seq::<char>::empty()
    } else {
        peaks_report(ps.drop_last())
            + (if ps.len() > 1 { ",\n"@ } else { Seq::<char>::empty() })
            + "        "@ + dec_str_of(ps.last().position as nat)
            + ": "@ + "0x"@ + hex_encoded(ps.last().digest@)
    }
}

/// The whole human-readable checkpoint report.
pub open spec fn report_of(c: CheckPointInfo) -> Seq<char> {
    "{\n    \"blocknum\": "@ + dec_str_of(c.block_number as nat)
        + ",\n    \"position\": "@ + dec_str_of(c.position as nat)
        + ",\n    \"parent_mmr_root\": "@ + "0x"@ + hex_encoded(c.mmr_root@)
        + ",\n    \"peaks\": [\n"@ + peaks_report(c.peaks@)
        + "\n    ]\n}\n"@
}

impl CheckPointInfo {
    /// Renders the checkpoint report: block number, leaf position, root,
    /// then the ordered peak lines.
    pub fn report(&self) -> (r: String)
        requires
            self.wf(),
        ensures
            r@ == report_of(*self),
    {
        let mut s = String::from_str("{\n    \"blocknum\": ");
        let bn = u64_to_string(self.block_number);
        s.append(bn.as_str());
        s.append(",\n    \"position\": ");
        let pn = u64_to_string(self.position);
        s.append(pn.as_str());
        s.append(",\n    \"parent_mmr_root\": ");
        let root = encode_digest(&self.mmr_root);
        s.append(root.as_str());
        s.append(",\n    \"peaks\": [\n");
        let ghost prefix = s@;
        let n = self.peaks.len();
        let mut i: usize = 0;
        while i < n
            invariant
                n == self.peaks@.len(),
                0 <= i <= n,
                self.wf(),
                s@ == prefix + peaks_report(self.peaks@.take(i as int)),
            decreases n - i,
        {
            if i != 0 {
                s.append(",\n");
            }
            s.append("        ");
            let pos_txt = u64_to_string(self.peaks[i].position);
            s.append(pos_txt.as_str());
            s.append(": ");
            let hash_txt = encode_digest(&self.peaks[i].digest);
            s.append(hash_txt.as_str());
            proof {
                assert(self.peaks@.take(i + 1).drop_last() =~= self.peaks@.take(i as int));
                assert(self.peaks@.take(i + 1).last() == self.peaks@[i as int]);
                assert(s@ =~= prefix + peaks_report(self.peaks@.take(i + 1)));
            }
            i = i + 1;
        }
        proof {
            assert(self.peaks@.take(n as int) =~= self.peaks@);
        }
        s.append("\n    ]\n}\n");
        proof {
            assert(s@ =~= report_of(*self));
        }
        s
    }
}

} // verus!
