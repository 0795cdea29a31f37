use mmr_checkpoint::checkpoint::{assemble_positions, assemble_proof, build_checkpoint};
use mmr_checkpoint::digest::{Digest, encode_digest};
use mmr_checkpoint::error::MmrError;
use mmr_checkpoint::mmr::{bag_peaks, gen_proof_positions, merge};
use mmr_checkpoint::resolver::{Peak, NodeEntities, SubgraphData};

struct MergeHash;

impl ckb_merkle_mountain_range::Merge for MergeHash {
    type Item = [u8; 32];

    fn merge(lhs: &Self::Item, rhs: &Self::Item) -> ckb_merkle_mountain_range::Result<Self::Item> {
        let l = Digest::new(lhs.to_vec()).unwrap();
        let r = Digest::new(rhs.to_vec()).unwrap();
        Ok(to_arr(&merge(&l, &r)))
    }
}

fn to_arr(d: &Digest) -> [u8; 32] {
    let mut a = [0u8; 32];
    a.copy_from_slice(d.as_bytes().as_slice());
    a
}

fn leaf(b: u8) -> Digest {
    Digest::new(vec![b; 32]).unwrap()
}

/// The seven nodes of the MMR holding four leaves: leaves at positions
/// 0, 1, 3, 4; internal nodes 2 = merge(0,1), 5 = merge(3,4),
/// 6 = merge(2,5).
fn seven_nodes() -> Vec<Digest> {
    let n0 = leaf(1);
    let n1 = leaf(2);
    let n2 = merge(&n0, &n1);
    let n3 = leaf(3);
    let n4 = leaf(4);
    let n5 = merge(&n3, &n4);
    let n6 = merge(&n2, &n5);
    vec![n0, n1, n2, n3, n4, n5, n6]
}

fn backing_data() -> SubgraphData {
    let nodes = seven_nodes();
    // the service answers in its own (here: reversed) order
    let mut entries = Vec::new();
    for pos in (0..7u64).rev() {
        entries.push(Peak {
            hash: encode_digest(&nodes[pos as usize]),
            id: format!("entity-{}", 6 - pos),
            position: pos.to_string(),
        });
    }
    SubgraphData { data: NodeEntities { node_entities: entries } }
}

#[test]
fn checkpoint_of_height_four() {
    let nodes = seven_nodes();
    let c = build_checkpoint(4, &backing_data()).unwrap();
    assert_eq!(c.block_number, 4);
    assert_eq!(c.position, 7);
    assert_eq!(c.peaks.len(), 1);
    assert_eq!(c.peaks[0].position, 6);
    assert_eq!(c.peaks[0].digest.as_bytes(), nodes[6].as_bytes());
    // root = merge(merge(leaf0, leaf1), merge(leaf2, leaf3))
    assert_eq!(c.mmr_root.as_bytes(), nodes[6].as_bytes());
}

#[test]
fn build_is_deterministic() {
    let c1 = build_checkpoint(4, &backing_data()).unwrap();
    let c2 = build_checkpoint(4, &backing_data()).unwrap();
    assert_eq!(c1.block_number, c2.block_number);
    assert_eq!(c1.position, c2.position);
    assert_eq!(c1.peaks.len(), c2.peaks.len());
    for i in 0..c1.peaks.len() {
        assert_eq!(c1.peaks[i].position, c2.peaks[i].position);
        assert_eq!(c1.peaks[i].digest.as_bytes(), c2.peaks[i].digest.as_bytes());
    }
    assert_eq!(c1.mmr_root.as_bytes(), c2.mmr_root.as_bytes());
}

#[test]
fn root_is_bag_of_peaks() {
    let c = build_checkpoint(4, &backing_data()).unwrap();
    let mut peak_hashes = Vec::new();
    for p in &c.peaks {
        peak_hashes.push(p.digest.duplicate());
    }
    let bagged = bag_peaks(peak_hashes);
    assert_eq!(bagged.as_bytes(), c.mmr_root.as_bytes());
}

#[test]
fn bagging_merges_right_to_left() {
    let (a, b, c) = (leaf(1), leaf(2), leaf(3));
    let expect = merge(&merge(&leaf(3), &leaf(2)), &leaf(1));
    let root = bag_peaks(vec![a, b, c]);
    assert_eq!(root.as_bytes(), expect.as_bytes());
}

#[test]
fn build_rejects_height_zero() {
    assert_eq!(build_checkpoint(0, &backing_data()).unwrap_err(), MmrError::InvalidHeight);
}

#[test]
fn build_propagates_malformed_digest() {
    let mut d = backing_data();
    // node 6 is the only peak of build(4); hand it back 31 bytes
    for e in &mut d.data.node_entities {
        if e.position == "6" {
            e.hash = format!("0x{}", "ab".repeat(31));
        }
    }
    assert_eq!(build_checkpoint(4, &d).unwrap_err(), MmrError::MalformedDigest);
}

#[test]
fn build_propagates_missing_node() {
    let mut d = backing_data();
    d.data.node_entities.retain(|e| e.position != "6");
    assert_eq!(build_checkpoint(4, &d).unwrap_err(), MmrError::MissingNode(6));
}

#[test]
fn boundary_rejected_before_any_lookup() {
    assert_eq!(assemble_positions(4, 4).unwrap_err(), MmrError::InvalidVerificationTarget);
    assert_eq!(assemble_positions(5, 4).unwrap_err(), MmrError::InvalidVerificationTarget);
    assert_eq!(assemble_positions(1, 4).unwrap(), (1, 7));
    assert_eq!(assemble_positions(3, 4).unwrap(), (4, 7));
}

#[test]
fn proof_positions_of_leaf_one() {
    let (path, others, k) = gen_proof_positions(1, 7).unwrap();
    assert_eq!(path, vec![0, 5]);
    assert_eq!(others, Vec::<u64>::new());
    assert_eq!(k, 0);
}

#[test]
fn assembled_proof_verifies() {
    let nodes = seven_nodes();
    let c = build_checkpoint(4, &backing_data()).unwrap();
    let (target_pos, mmr_size) = assemble_positions(1, 4).unwrap();
    let proof = assemble_proof(target_pos, mmr_size, &backing_data(), &backing_data()).unwrap();
    assert_eq!(proof.mmr_size, 7);
    assert_eq!(proof.items.len(), 2);
    assert_eq!(proof.items[0].as_bytes(), nodes[0].as_bytes());
    assert_eq!(proof.items[1].as_bytes(), nodes[5].as_bytes());

    let items: Vec<[u8; 32]> = proof.items.iter().map(to_arr).collect();
    let ckb_proof =
        ckb_merkle_mountain_range::MerkleProof::<[u8; 32], MergeHash>::new(proof.mmr_size, items);
    let ok = ckb_proof
        .verify(to_arr(&c.mmr_root), vec![(target_pos, to_arr(&nodes[1]))])
        .unwrap();
    assert!(ok);
}

#[test]
fn tampered_proof_is_rejected() {
    let nodes = seven_nodes();
    let c = build_checkpoint(4, &backing_data()).unwrap();
    let proof = assemble_proof(1, 7, &backing_data(), &backing_data()).unwrap();
    let root = to_arr(&c.mmr_root);
    let leaf1 = to_arr(&nodes[1]);
    let items: Vec<[u8; 32]> = proof.items.iter().map(to_arr).collect();

    // one byte of one item flipped
    for i in 0..items.len() {
        let mut tampered = items.clone();
        tampered[i][7] ^= 0x01;
        let p = ckb_merkle_mountain_range::MerkleProof::<[u8; 32], MergeHash>::new(7, tampered);
        assert_eq!(p.verify(root, vec![(1, leaf1)]).unwrap(), false);
    }

    // wrong leaf digest
    let p = ckb_merkle_mountain_range::MerkleProof::<[u8; 32], MergeHash>::new(7, items.clone());
    assert_eq!(p.verify(root, vec![(1, to_arr(&leaf(9)))]).unwrap(), false);

    // scrambled item order
    let mut swapped = items.clone();
    swapped.swap(0, 1);
    let p = ckb_merkle_mountain_range::MerkleProof::<[u8; 32], MergeHash>::new(7, swapped);
    assert_eq!(p.verify(root, vec![(1, leaf1)]).unwrap(), false);
}

#[test]
fn positions_beyond_the_tree_are_invalid() {
    // position 9 lies beyond every peak of a 7-node MMR
    assert_eq!(gen_proof_positions(9, 7).unwrap_err(), MmrError::InvalidProof);
    assert_eq!(
        assemble_proof(9, 7, &backing_data(), &backing_data()).unwrap_err(),
        MmrError::InvalidProof
    );
}

#[test]
fn assemble_propagates_resolver_failures() {
    let mut no_path = backing_data();
    no_path.data.node_entities.retain(|e| e.position != "0");
    assert_eq!(
        assemble_proof(1, 7, &no_path, &backing_data()).unwrap_err(),
        MmrError::MissingNode(0)
    );

    let mut bad_path = backing_data();
    for e in &mut bad_path.data.node_entities {
        if e.position == "5" {
            e.hash = format!("0x{}", "cd".repeat(31));
        }
    }
    assert_eq!(
        assemble_proof(1, 7, &bad_path, &backing_data()).unwrap_err(),
        MmrError::MalformedDigest
    );
}

#[test]
fn report_renders_the_checkpoint() {
    let nodes = seven_nodes();
    let c = build_checkpoint(4, &backing_data()).unwrap();
    let root_hex = encode_digest(&nodes[6]);
    let expected = format!(
        "{{\n    \"blocknum\": 4,\n    \"position\": 7,\n    \"parent_mmr_root\": {},\n    \"peaks\": [\n        6: {}\n    ]\n}}\n",
        root_hex, root_hex
    );
    assert_eq!(c.report(), expected);
}

#[test]
fn merge_depends_on_both_inputs_and_order() {
    let a = leaf(1);
    let b = leaf(2);
    let ab = merge(&a, &b);
    let ba = merge(&b, &a);
    assert_eq!(ab.as_bytes().len(), 32);
    assert_ne!(ab.as_bytes(), a.as_bytes());
    assert_ne!(ab.as_bytes(), b.as_bytes());
    assert_ne!(ab.as_bytes(), ba.as_bytes());
    assert_eq!(ab.as_bytes(), merge(&leaf(1), &leaf(2)).as_bytes());
}
