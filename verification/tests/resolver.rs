use mmr_checkpoint::digest::{Digest, encode_digest};
use mmr_checkpoint::error::MmrError;
use mmr_checkpoint::resolver::{Peak, NodeEntities, SubgraphData, resolve};

fn digest(b: u8) -> Digest {
    Digest::new(vec![b; 32]).unwrap()
}

fn entry(pos: &str, hash: String, id: &str) -> Peak {
    Peak { hash, id: id.to_string(), position: pos.to_string() }
}

fn data(entries: Vec<Peak>) -> SubgraphData {
    SubgraphData { data: NodeEntities { node_entities: entries } }
}

#[test]
fn resolve_preserves_request_order() {
    // the response arrives sorted by the service's own id, not by request
    let d = data(vec![
        entry("0", encode_digest(&digest(10)), "a"),
        entry("2", encode_digest(&digest(12)), "b"),
        entry("4", encode_digest(&digest(14)), "c"),
    ]);
    let positions = vec![4, 0, 2];
    let out = resolve(&positions, &d).unwrap();
    assert_eq!(out.len(), 3);
    assert_eq!(out[0].position, 4);
    assert_eq!(out[1].position, 0);
    assert_eq!(out[2].position, 2);
    assert_eq!(out[0].digest.as_bytes().as_slice(), &[14u8; 32][..]);
    assert_eq!(out[1].digest.as_bytes().as_slice(), &[10u8; 32][..]);
    assert_eq!(out[2].digest.as_bytes().as_slice(), &[12u8; 32][..]);
}

#[test]
fn resolve_every_permutation_of_three() {
    let e0 = || entry("0", encode_digest(&digest(10)), "a");
    let e1 = || entry("5", encode_digest(&digest(15)), "b");
    let e2 = || entry("6", encode_digest(&digest(16)), "c");
    let perms: Vec<Vec<Peak>> = vec![
        vec![e0(), e1(), e2()],
        vec![e0(), e2(), e1()],
        vec![e1(), e0(), e2()],
        vec![e1(), e2(), e0()],
        vec![e2(), e0(), e1()],
        vec![e2(), e1(), e0()],
    ];
    for p in perms {
        let out = resolve(&vec![6, 0, 5], &data(p)).unwrap();
        assert_eq!(out[0].position, 6);
        assert_eq!(out[0].digest.as_bytes().as_slice(), &[16u8; 32][..]);
        assert_eq!(out[1].position, 0);
        assert_eq!(out[1].digest.as_bytes().as_slice(), &[10u8; 32][..]);
        assert_eq!(out[2].position, 5);
        assert_eq!(out[2].digest.as_bytes().as_slice(), &[15u8; 32][..]);
    }
}

#[test]
fn resolve_duplicates_independently() {
    let d = data(vec![entry("3", encode_digest(&digest(3)), "a")]);
    let out = resolve(&vec![3, 3], &d).unwrap();
    assert_eq!(out.len(), 2);
    assert_eq!(out[0].position, 3);
    assert_eq!(out[1].position, 3);
}

#[test]
fn resolve_reports_missing_node() {
    let d = data(vec![entry("0", encode_digest(&digest(1)), "a")]);
    assert_eq!(resolve(&vec![0, 9], &d).unwrap_err(), MmrError::MissingNode(9));
}

#[test]
fn resolve_rejects_short_digest() {
    // 62 hex characters after the prefix: 31 bytes, not a crash
    let short = format!("0x{}", "ab".repeat(31));
    let d = data(vec![entry("0", short, "a")]);
    assert_eq!(resolve(&vec![0], &d).unwrap_err(), MmrError::MalformedDigest);
}

#[test]
fn resolve_ignores_unparseable_positions() {
    let d = data(vec![
        entry("zero", encode_digest(&digest(9)), "a"),
        entry("0", encode_digest(&digest(1)), "b"),
    ]);
    let out = resolve(&vec![0], &d).unwrap();
    assert_eq!(out[0].digest.as_bytes().as_slice(), &[1u8; 32][..]);
}

#[test]
fn resolve_takes_first_match() {
    let d = data(vec![
        entry("7", encode_digest(&digest(1)), "a"),
        entry("7", encode_digest(&digest(2)), "b"),
    ]);
    let out = resolve(&vec![7], &d).unwrap();
    assert_eq!(out[0].digest.as_bytes().as_slice(), &[1u8; 32][..]);
}
