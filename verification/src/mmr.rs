//! MMR position arithmetic and hashing.
//!
//! Position arithmetic and the merge hash come from the
//! `ckb-merkle-mountain-range` and `blake2` crates; the proof-position
//! derivation, peak bagging and proof assembly around them are verified
//! here.

use vstd::prelude::*;
use crate::error::MmrError;
use crate::digest::Digest;

verus! {

/// The number of set bits of `n`.
pub open spec fn pop_count(n: nat) -> nat
    decreases n,
{
    if n == 0 { 0 } else { pop_count(n / 2) + n % 2 }
}

/// The number of trailing zero bits of `n` (64 for zero itself).
pub open spec fn trailing_zeros_of(n: nat) -> nat
    decreases n,
{
    if n == 0 { 64 } else if n % 2 == 1 { 0 } else { trailing_zeros_of(n / 2) + 1 }
}

/// The position of leaf `h` in the MMR's postorder numbering, which is
/// also the size of the MMR whose last mountain starts at that leaf.
pub open spec fn leaf_pos(h: u64) -> int {
    2 * (h as int + 1) - pop_count((h + 1) as nat) - trailing_zeros_of((h + 1) as nat) - 1
}

proof fn lemma_pop_le(n: nat)
    ensures
        pop_count(n) <= n,
    decreases n,
{
    if n > 0 {
        lemma_pop_le(n / 2);
    }
}

proof fn lemma_tz_le(n: nat)
    requires
        n >= 1,
    ensures
        trailing_zeros_of(n) <= n - 1,
    decreases n,
{
    if n % 2 == 0 {
        lemma_tz_le(n / 2);
    }
}

/// A non-trivial height sits at a strictly positive position, so the MMR
/// it closes has at least one node and so at least one peak.
pub proof fn lemma_leaf_pos_ge_one(h: u64)
    requires
        h >= 1,
    ensures
        leaf_pos(h) >= 1,
{
    let n = (h + 1) as nat;
    lemma_pop_le(n);
    lemma_tz_le(n);
    if n % 2 == 0 {
        assert(pop_count(n) == pop_count(n / 2) + n % 2);
        lemma_pop_le(n / 2);
    }
}

/// Relies on `leaf_index_to_pos` of `ckb-merkle-mountain-range`: the
/// position equals `2*(index+1) - ones(index+1) - trailing_zeros(index+1) - 1`.
/// The bound keeps its internal `2 * (index + 1)` from overflowing.
pub assume_specification [ ckb_merkle_mountain_range::helper::leaf_index_to_pos ] (index: u64) -> (r: u64)
    requires
        index < 0x7fff_ffff_ffff_ffff,
    ensures
        r as int == leaf_pos(index),
;

/// The ordered peak positions of the MMR of the given size, left to right.
pub uninterp spec fn peaks_of(mmr_size: u64) -> Seq<u64>;

/// Relies on `get_peaks` of `ckb-merkle-mountain-range`: the peaks of an
/// MMR, in strictly increasing position order, all below the size, at
/// least one of them as soon as the MMR is non-empty.
pub assume_specification [ ckb_merkle_mountain_range::helper::get_peaks ] (mmr_size: u64) -> (r: Vec<u64>)
    ensures
        r@ == peaks_of(mmr_size),
        mmr_size == 0 ==> r@.len() == 0,
        mmr_size > 0 ==> r@.len() > 0,
        forall|i: int| 0 <= i < r@.len() ==> #[trigger] r@[i] < mmr_size,
        forall|i: int, j: int| 0 <= i < j < r@.len() ==> r@[i] < r@[j],
;

/// The height of the node at a position (leaves have height 0).
pub uninterp spec fn height_at(pos: u64) -> u8;

/// Relies on `pos_height_in_tree` of `ckb-merkle-mountain-range`: the
/// height is a function of the position alone.
pub assume_specification [ ckb_merkle_mountain_range::helper::pos_height_in_tree ] (pos: u64) -> (r: u8)
    ensures
        r == height_at(pos),
;

/// What merging two nodes hashes to.  A function of the bytes alone.
pub uninterp spec fn merge_of(left: Seq<u8>, right: Seq<u8>) -> Seq<u8>;

/// Relies on `blake2::Blake2b256`: merging two nodes is the 32-byte
/// blake2b digest of left ++ right, a function of the bytes alone.
#[verifier::external_body]
pub fn merge(left: &Digest, right: &Digest) -> (r: Digest)
    ensures
        r@ == merge_of(left@, right@),
        r.wf(),
{
    let mut state = <blake2::Blake2b256 as blake2::Digest>::new();
    blake2::Digest::update(&mut state, left.as_bytes().as_slice());
    blake2::Digest::update(&mut state, right.as_bytes().as_slice());
    let out = blake2::Digest::finalize(state);
    Digest::from_raw(out.to_vec())
}

/// The bytes of each digest of a list.
pub open spec fn dvs(s: Seq<Digest>) -> Seq<Seq<u8>> {
    Seq::new(s.len(), |i: int| s[i]@)
}

pub open spec fn all_wf(s: Seq<Digest>) -> bool {
    forall|i: int| 0 <= i < s.len() ==> (#[trigger] s[i]).wf()
}

/// Bagging an ordered peak list into one root: fold right to left, the
/// accumulated right-hand side always the left argument of the merge.
pub open spec fn bag_of(s: Seq<Seq<u8>>) -> Seq<u8>
    decreases s.len(),
{
    if s.len() <= 1 {
        if s.len() == 1 { s[0] } else { Seq::<u8>::empty() }
    } else {
        merge_of(bag_of(s.skip(1)), s[0])
    }
}

/// Folds peaks right to left through the merge function into the root.
pub fn bag_peaks(v: Vec<Digest>) -> (r: Digest)
    requires
        v@.len() >= 1,
        all_wf(v@),
    ensures
        r@ == bag_of(dvs(v@)),
        r.wf(),
{
    let ghost orig = v@;
    let mut v = v;
    let mut acc = v.pop().unwrap();
    proof {
        assert(v@ =~= orig.take(orig.len() - 1));
        assert(dvs(orig.skip(orig.len() - 1)) =~= seq![orig.last()@]);
    }
    while v.len() > 0
        invariant
            v@ == orig.take(v@.len() as int),
            v@.len() < orig.len(),
            all_wf(orig),
            acc.wf(),
            acc@ == bag_of(dvs(orig.skip(v@.len() as int))),
        decreases v.len(),
    {
        let ghost k = v@.len() as int;
        let left = v.pop().unwrap();
        proof {
            assert(orig.take(k)[k - 1] == orig[k - 1]);
        }
        acc = merge(&acc, &left);
        proof {
            assert(v@ =~= orig.take(k - 1));
            let t = dvs(orig.skip(k - 1));
            assert(t.len() >= 2);
            assert(t.skip(1) =~= dvs(orig.skip(k)));
            assert(t[0] == orig[k - 1]@);
            assert(acc@ == merge_of(bag_of(t.skip(1)), t[0]));
        }
    }
    proof {
        assert(orig.skip(0) =~= orig);
    }
    acc
}

/// The index of the first peak at or above `pos`: the peak whose mountain
/// holds the target leaf.  -1 if the position lies beyond every peak.
pub open spec fn target_idx(peaks: Seq<u64>, pos: u64) -> int
    decreases peaks.len(),
{
    if peaks.len() == 0 {
        -1
    } else if peaks[0] >= pos {
        0
    } else {
        let r = target_idx(peaks.skip(1), pos);
        if r < 0 { -1 } else { r + 1 }
    }
}

proof fn lemma_target_idx(peaks: Seq<u64>, pos: u64)
    ensures
        target_idx(peaks, pos) < 0 ==> forall|k: int| 0 <= k < peaks.len() ==> peaks[k] < pos,
        target_idx(peaks, pos) >= 0 ==> {
            let m = target_idx(peaks, pos);
            &&& 0 <= m < peaks.len()
            &&& peaks[m] >= pos
            &&& forall|k: int| 0 <= k < m ==> peaks[k] < pos
        },
    decreases peaks.len(),
{
    if peaks.len() > 0 && peaks[0] < pos {
        lemma_target_idx(peaks.skip(1), pos);
        assert forall|k: int| 1 <= k < peaks.len() implies peaks.skip(1)[k - 1] == peaks[k] by {}
    }
}

/// Two to the power `e`.
pub open spec fn pow2n(e: nat) -> nat
    decreases e,
{
    if e == 0 { 1 } else { 2 * pow2n((e - 1) as nat) }
}

proof fn lemma_pow2n_pos(e: nat)
    ensures
        pow2n(e) >= 1,
    decreases e,
{
    if e > 0 {
        lemma_pow2n_pos((e - 1) as nat);
    }
}

proof fn lemma_pow2n_adds(a: nat, b: nat)
    ensures
        pow2n(a + b) == pow2n(a) * pow2n(b),
    decreases b,
{
    if b == 0 {
        assert(pow2n(0) == 1);
    } else {
        lemma_pow2n_adds(a, (b - 1) as nat);
        let x = pow2n(a);
        let y = pow2n((b - 1) as nat);
        assert(pow2n((a + b - 1) as nat) == x * y);
        assert(pow2n(a + b) == 2 * pow2n((a + b - 1) as nat));
        assert(pow2n(b) == 2 * y);
        assert(2 * (x * y) == x * (2 * y)) by (nonlinear_arith);
    }
}

proof fn lemma_pow2n_mono(a: nat, b: nat)
    requires
        a <= b,
    ensures
        pow2n(a) <= pow2n(b),
    decreases b - a,
{
    if a < b {
        lemma_pow2n_mono(a, (b - 1) as nat);
        lemma_pow2n_pos((b - 1) as nat);
    }
}

proof fn lemma_pow2n_64()
    ensures
        pow2n(64) > 0xffff_ffff_ffff_ffff as nat,
{
    assert(pow2n(0) == 1);
    assert(pow2n(1) == 2);
    assert(pow2n(2) == 4);
    lemma_pow2n_adds(2, 2);
    assert(pow2n(4) == 0x10);
    lemma_pow2n_adds(4, 4);
    assert(pow2n(8) == 0x100);
    lemma_pow2n_adds(8, 8);
    assert(pow2n(16) == 0x10000);
    lemma_pow2n_adds(16, 16);
    assert(pow2n(32) == 0x1_0000_0000);
    lemma_pow2n_adds(32, 32);
    assert(pow2n(64) == 0x1_0000_0000_0000_0000);
}

/// A parent offset that fits in 64 bits bounds the height.
proof fn lemma_height_bound(h: nat, po: u64)
    requires
        po as nat == pow2n(h + 1),
    ensures
        h <= 62,
{
    if h + 1 >= 64 {
        lemma_pow2n_64();
        lemma_pow2n_mono(64, h + 1);
        assert(false);
    }
}

/// One climbing step from a node at height `h`: the sibling that must be
/// fetched and the parent to continue from.  `None` when the positions do
/// not describe a node inside a mountain that fits in 64 bits.
pub open spec fn path_step(cur: u64, h: nat) -> Option<(u64, u64)> {
    if cur == u64::MAX {
        None
    } else {
        let po = pow2n(h + 1) as int;
        if height_at((cur + 1) as u64) as nat > h {
            // `cur` is a right child: the sibling sits `po - 1` below it
            if po - 1 > cur as int {
                None
            } else {
                Some(((cur as int - (po - 1)) as u64, (cur + 1) as u64))
            }
        } else {
            // `cur` is a left child: the sibling sits `po - 1` above it
            if cur as int + po > u64::MAX as int {
                None
            } else {
                Some(((cur as int + po - 1) as u64, (cur as int + po) as u64))
            }
        }
    }
}

/// Whether climbing from `cur` at height `h` reaches `peak` cleanly.
pub open spec fn climb_ok(cur: u64, h: nat, peak: u64) -> bool
    decreases peak as int - cur as int,
{
    if cur >= peak {
        true
    } else {
        match path_step(cur, h) {
            None => false,
            Some(sp) => sp.1 > cur && sp.1 <= peak && climb_ok(sp.1, h + 1, peak),
        }
    }
}

/// The sibling positions collected while climbing from `cur` at height
/// `h` up to `peak`, bottom-up.  Meaningful when the climb is ok.
pub open spec fn climb_path(cur: u64, h: nat, peak: u64) -> Seq<u64>
    decreases peak as int - cur as int,
{
    if cur >= peak {
        Seq::<u64>::empty()
    } else {
        match path_step(cur, h) {
            None => Seq::<u64>::empty(),
            Some(sp) => if sp.1 > cur && sp.1 <= peak {
                seq![sp.0] + climb_path(sp.1, h + 1, peak)
            } else {
                Seq::<u64>::empty()
            },
        }
    }
}

/// Derives the positions an inclusion proof needs: the Merkle path from
/// the target leaf to its peak (bottom-up), the other peaks, and the
/// index the target's own peak holds in the bagging order.  Fails with
/// `InvalidProof` exactly when position and size do not describe a leaf
/// under a peak of a 64-bit MMR.
pub fn gen_proof_positions(pos: u64, mmr_size: u64) -> (r: Result<(Vec<u64>, Vec<u64>, usize), MmrError>)
    ensures
        r.is_ok() <==> target_idx(peaks_of(mmr_size), pos) >= 0
            && climb_ok(pos, 0, peaks_of(mmr_size)[target_idx(peaks_of(mmr_size), pos)]),
        r matches Ok(t) ==> {
            let peaks = peaks_of(mmr_size);
            let k = target_idx(peaks, pos);
            &&& 0 <= k < peaks.len()
            &&& t.2 == k
            &&& t.0@ == climb_path(pos, 0, peaks[k])
            &&& t.1@ == peaks.remove(k)
        },
        r matches Err(e) ==> e == MmrError::InvalidProof,
{
    let peaks_vec = ckb_merkle_mountain_range::helper::get_peaks(mmr_size);
    let n = peaks_vec.len();
    let mut k: usize = 0;
    while k < n && peaks_vec[k] < pos
        invariant
            n == peaks_vec@.len(),
            peaks_vec@ == peaks_of(mmr_size),
            0 <= k <= n,
            forall|j: int| 0 <= j < k ==> peaks_vec@[j] < pos,
        decreases n - k,
    {
        k = k + 1;
    }
    proof {
        lemma_target_idx(peaks_of(mmr_size), pos);
    }
    if k == n {
        return Err(MmrError::InvalidProof);
    }
    let peak = peaks_vec[k];

    let mut path: Vec<u64> = Vec::new();
    let mut cur = pos;
    let mut h: u64 = 0;
    let mut po: u64 = 2;
    proof {
        assert(pow2n(0) == 1);
        assert(pow2n(1) == 2);
    }
    while cur < peak
        invariant
            peak == peaks_of(mmr_size)[target_idx(peaks_of(mmr_size), pos)],
            cur <= peak,
            po >= 2,
            cur < peak ==> po as nat == pow2n((h + 1) as nat),
            climb_ok(pos, 0, peak) == climb_ok(cur, h as nat, peak),
            climb_ok(cur, h as nat, peak)
                ==> climb_path(pos, 0, peak) =~= path@ + climb_path(cur, h as nat, peak),
        decreases peak - cur,
    {
        let next_height = ckb_merkle_mountain_range::helper::pos_height_in_tree(cur + 1);
        let sib_off = po - 1;
        let sib: u64;
        let parent: u64;
        if (next_height as u64) > h {
            if sib_off > cur {
                proof {
                    assert(path_step(cur, h as nat) is None);
                }
                return Err(MmrError::InvalidProof);
            }
            sib = cur - sib_off;
            parent = cur + 1;
        } else {
            parent = match cur.checked_add(po) {
                Some(x) => x,
                None => {
                    proof {
                        assert(path_step(cur, h as nat) is None);
                    }
                    return Err(MmrError::InvalidProof);
                }
            };
            sib = cur + sib_off;
        }
        proof {
            assert(path_step(cur, h as nat) == Some((sib, parent)));
        }
        if parent > peak {
            return Err(MmrError::InvalidProof);
        }
        proof {
            assert(climb_ok(cur, h as nat, peak) == climb_ok(parent, (h + 1) as nat, peak));
            if climb_ok(cur, h as nat, peak) {
                assert(climb_path(cur, h as nat, peak)
                    =~= seq![sib] + climb_path(parent, (h + 1) as nat, peak));
                assert((path@ + climb_path(cur, h as nat, peak))
                    =~= (path@.push(sib) + climb_path(parent, (h + 1) as nat, peak)));
            }
            lemma_height_bound(h as nat, po);
        }
        path.push(sib);
        cur = parent;
        h = h + 1;
        if cur < peak {
            po = match po.checked_mul(2) {
                Some(x) => x,
                None => {
                    proof {
                        assert(pow2n((h + 1) as nat) == 2 * pow2n(h as nat));
                        assert(path_step(cur, h as nat) is None);
                        assert(!climb_ok(cur, h as nat, peak));
                    }
                    return Err(MmrError::InvalidProof);
                }
            };
            proof {
                assert(pow2n((h + 1) as nat) == 2 * pow2n(h as nat));
            }
        }
    }
    proof {
        assert(climb_path(cur, h as nat, peak) =~= Seq::<u64>::empty());
        assert(path@ =~= climb_path(pos, 0, peak));
    }
    let mut others = peaks_vec;
    let removed = others.remove(k);
    proof {
        assert(others@ =~= peaks_of(mmr_size).remove(k as int));
    }
    Ok((path, others, k))
}

/// The ordered item list the verifier expects: the peaks left of the
/// target (each on its own), then the Merkle path, then the right-hand
/// peaks bagged into a single item when there are at least two of them.
pub open spec fn proof_items_model(path: Seq<Seq<u8>>, others: Seq<Seq<u8>>, k: int) -> Seq<Seq<u8>> {
    let lhs = others.take(k);
    let rhs = others.skip(k);
    if rhs.len() >= 2 {
        lhs + path + seq![bag_of(rhs)]
    } else {
        lhs + path + rhs
    }
}

/// Interleaves the path and the other peaks into the single ordered item
/// list the verifier expects.
pub fn gen_proof(path: Vec<Digest>, others: Vec<Digest>, k: usize) -> (r: Vec<Digest>)
    requires
        k <= others@.len(),
        all_wf(path@),
        all_wf(others@),
    ensures
        dvs(r@) == proof_items_model(dvs(path@), dvs(others@), k as int),
        all_wf(r@),
{
    let ghost opath = path@;
    let ghost oothers = others@;
    let mut items = others;
    let mut rest = items.split_off(k);
    let mut path_v = path;
    items.append(&mut path_v);
    if rest.len() >= 2 {
        proof {
            assert(dvs(rest@) =~= dvs(oothers).skip(k as int));
            assert(all_wf(rest@));
        }
        let bagged = bag_peaks(rest);
        items.push(bagged);
    } else if rest.len() == 1 {
        let last = rest.pop().unwrap();
        items.push(last);
    }
    proof {
        assert(dvs(items@) =~= proof_items_model(dvs(opath), dvs(oothers), k as int));
    }
    items
}

} // verus!
