//! The batched position resolver.
//!
//! The remote index answers a batched query with entries in an order of its
//! own choosing (typically by an opaque entity id).  Trusting that order
//! silently corrupts every derived root and proof, so the resolver
//! re-correlates every entry with the position the caller asked for:
//! `resolve(positions)[i].position == positions[i]`, always.

use vstd::prelude::*;
use crate::error::MmrError;
use crate::digest::{Digest, digest_of, is_digest_text, decode_digest};
use crate::num::{is_dec_text, dec_val, dec_str_of, parse_u64, u64_to_string};

verus! {

/// One entry of the remote response: a node's hash and position, both as
/// text, plus the service's own id for the entry.
#[derive(Debug)]
pub struct Peak {
    pub hash: String,
    pub id: String,
    pub position: String,
}

/// The list of entries of one batched response.
#[derive(Debug)]
pub struct NodeEntities {
    pub node_entities: Vec<Peak>,
}

/// A whole response: the data object wrapping the entry list.
#[derive(Debug)]
pub struct SubgraphData {
    pub data: NodeEntities,
}

/// A resolved node: the position the caller asked for, with its hash.
#[derive(Debug)]
pub struct PositionedDigest {
    pub position: u64,
    pub digest: Digest,
}

/// Does this entry speak of position `p`?  Its textual position must be a
/// decimal numeral denoting exactly `p`.
pub open spec fn entry_matches(e: Peak, p: u64) -> bool {
    is_dec_text(e.position@) && dec_val(e.position@) == p as nat
}

/// The index of the first entry for position `p`, or -1 if there is none.
pub open spec fn first_match(entries: Seq<Peak>, p: u64) -> int
    decreases entries.len(),
{
    if entries.len() == 0 {
        -1
    } else if entry_matches(entries[0], p) {
        0
    } else {
        let r = first_match(entries.skip(1), p);
        if r < 0 { -1 } else { r + 1 }
    }
}

proof fn lemma_first_match(entries: Seq<Peak>, p: u64)
    ensures
        first_match(entries, p) < 0 ==> forall|k: int| 0 <= k < entries.len() ==> !entry_matches(entries[k], p),
        first_match(entries, p) >= 0 ==> {
            let m = first_match(entries, p);
            &&& 0 <= m < entries.len()
            &&& entry_matches(entries[m], p)
            &&& forall|k: int| 0 <= k < m ==> !entry_matches(entries[k], p)
        },
    decreases entries.len(),
{
    if entries.len() > 0 && !entry_matches(entries[0], p) {
        lemma_first_match(entries.skip(1), p);
        assert forall|k: int| 1 <= k < entries.len() implies entries.skip(1)[k - 1] == entries[k] by {}
    }
}

/// What one position resolves to against a fixed response: the bytes of
/// the first matching entry's digest, or the exact failure.
pub open spec fn lookup_model(entries: Seq<Peak>, p: u64) -> Result<Seq<u8>, MmrError> {
    let m = first_match(entries, p);
    if m < 0 {
        Err(MmrError::MissingNode(p))
    } else if !is_digest_text(entries[m].hash@) {
        Err(MmrError::MalformedDigest)
    } else {
        Ok(digest_of(entries[m].hash@))
    }
}

/// Finds the first entry whose position text denotes `p`.
fn find_entry(entries: &Vec<Peak>, p: u64) -> (r: Option<usize>)
    ensures
        r.is_some() <==> first_match(entries@, p) >= 0,
        r matches Some(j) ==> j == first_match(entries@, p) && j < entries@.len(),
{
    let n = entries.len();
    let mut j: usize = 0;
    while j < n
        invariant
            n == entries@.len(),
            0 <= j <= n,
            forall|k: int| 0 <= k < j ==> !entry_matches(entries@[k], p),
        decreases n - j,
    {
        let matched = match parse_u64(entries[j].position.as_str()) {
            Some(v) => v == p,
            None => false,
        };
        if matched {
            proof {
                lemma_first_match(entries@, p);
            }
            return Some(j);
        }
        j = j + 1;
    }
    proof {
        lemma_first_match(entries@, p);
    }
    None
}

/// Resolves an ordered list of positions against one batched response.
///
/// The output has the same length and index-correspondence as the input,
/// whatever order the response came in; duplicates are each resolved
/// independently.  A position with no entry fails with `MissingNode`; an
/// entry whose digest text is malformed fails with `MalformedDigest`; the
/// first offending input position decides which failure is reported.
pub fn resolve(positions: &Vec<u64>, data: &SubgraphData) -> (r: Result<Vec<PositionedDigest>, MmrError>)
    ensures
        r.is_ok() <==> (forall|i: int| 0 <= i < positions@.len()
            ==> (#[trigger] lookup_model(data.data.node_entities@, positions@[i])).is_ok()),
        r matches Ok(out) ==> {
            &&& out@.len() == positions@.len()
            &&& forall|i: int| 0 <= i < positions@.len() ==> (#[trigger] out@[i]).position == positions@[i]
            &&& forall|i: int| 0 <= i < positions@.len() ==> (#[trigger] out@[i]).digest.wf()
                && out@[i].digest@ == lookup_model(data.data.node_entities@, positions@[i])->Ok_0
        },
        r matches Err(e) ==> exists|i: int| {
            &&& 0 <= i < positions@.len()
            &&& (#[trigger] lookup_model(data.data.node_entities@, positions@[i])) == Err::<Seq<u8>, MmrError>(e)
            &&& forall|j: int| 0 <= j < i ==> lookup_model(data.data.node_entities@, positions@[j]).is_ok()
        },
{
    let entries = &data.data.node_entities;
    let n = positions.len();
    let mut out: Vec<PositionedDigest> = Vec::new();
    let mut i: usize = 0;
    while i < n
        invariant
            n == positions@.len(),
            0 <= i <= n,
            out@.len() == i,
            entries@ == data.data.node_entities@,
            forall|j: int| 0 <= j < i ==> (#[trigger] lookup_model(entries@, positions@[j])).is_ok(),
            forall|j: int| 0 <= j < i ==> (#[trigger] out@[j]).position == positions@[j],
            forall|j: int| 0 <= j < i ==> (#[trigger] out@[j]).digest.wf()
                && out@[j].digest@ == lookup_model(entries@, positions@[j])->Ok_0,
        decreases n - i,
    {
        let p = positions[i];
        match find_entry(entries, p) {
            None => {
                proof {
                    assert((i as int) < positions@.len()
                        && lookup_model(entries@, positions@[i as int])
                            == Err::<Seq<u8>, MmrError>(MmrError::MissingNode(p))
                        && forall|j: int| 0 <= j < i as int ==> lookup_model(entries@, positions@[j]).is_ok());
                }
                return Err(MmrError::MissingNode(p));
            }
            Some(j) => {
                match decode_digest(entries[j].hash.as_str()) {
                    Ok(d) => {
                        out.push(PositionedDigest { position: p, digest: d });
                    }
                    Err(e) => {
                        proof {
                            assert((i as int) < positions@.len()
                                && lookup_model(entries@, positions@[i as int])
                                    == Err::<Seq<u8>, MmrError>(e)
                                && forall|j: int| 0 <= j < i as int ==> lookup_model(entries@, positions@[j]).is_ok());
                        }
                        return Err(e);
                    }
                }
            }
        }
        i = i + 1;
    }
    Ok(out)
}

/// The fragment of a batched query that carries the requested positions,
/// in request order, each as an escaped decimal string.
pub open spec fn query_frag(ps: Seq<u64>) -> Seq<char>
    decreases ps.len(),
{
    if ps.len() == 0 {
        Seq::<char>::empty()
    } else {
        query_frag(ps.drop_last()) + ", \\\""@ + dec_str_of(ps.last() as nat) + "\\\""@
    }
}

/// Serializes the positions into the query fragment the indexing service
/// accepts.  One batched request carries the whole set.
pub fn position_query(positions: &Vec<u64>) -> (r: String)
    ensures
        r@ == query_frag(positions@),
{
    let mut s = String::new();
    let n = positions.len();
    let mut i: usize = 0;
    while i < n
        invariant
            n == positions@.len(),
            0 <= i <= n,
            s@ == query_frag(positions@.take(i as int)),
        decreases n - i,
    {
        s.append(", \\\"");
        let num = u64_to_string(positions[i]);
        s.append(num.as_str());
        s.append("\\\"");
        proof {
            assert(positions@.take(i + 1).drop_last() =~= positions@.take(i as int));
            assert(positions@.take(i + 1).last() == positions@[i as int]);
        }
        i = i + 1;
    }
    proof {
        assert(positions@.take(n as int) =~= positions@);
    }
    s
}

/// The whole request body for one batched lookup of the given positions.
pub open spec fn query_body_of(ps: Seq<u64>) -> Seq<char> {
    "{\n\"query\":\"{\\n nodeEntities(where: {position_in: ["@
        + query_frag(ps)
        + "]}) {\\n    id\\n    position\\n    hash\\n  }\\n}\\n\",\n    \"variables\":null\n}"@
}

/// Builds the request body for one batched lookup.
pub fn query_body(positions: &Vec<u64>) -> (r: String)
    ensures
        r@ == query_body_of(positions@),
{
    let mut s = String::from_str("{\n\"query\":\"{\\n nodeEntities(where: {position_in: [");
    let frag = position_query(positions);
    s.append(frag.as_str());
    s.append("]}) {\\n    id\\n    position\\n    hash\\n  }\\n}\\n\",\n    \"variables\":null\n}");
    s
}

} // verus!
