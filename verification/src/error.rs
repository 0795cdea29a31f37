use vstd::prelude::*;

verus! {

/// Every failure the pipeline can report.  A failure anywhere aborts the
/// whole run: a proof computed from incomplete data is worse than no proof.
#[derive(Debug, Clone, Copy, PartialEq, Eq, Structural)]
pub enum MmrError {
    /// A digest's textual form was not `0x` + 64 hex characters, or did not
    /// decode to 32 bytes.
    MalformedDigest,
    /// A requested position was absent from the remote response.
    MissingNode(u64),
    /// The checkpoint height does not denote a non-trivial tree.
    InvalidHeight,
    /// The height to verify is not strictly below the checkpoint height.
    InvalidVerificationTarget,
    /// A remote lookup did not complete in time.  Produced by the caller
    /// that performs the lookup, never by this library's own logic.
    Timeout,
    /// A remote lookup failed outright.  Produced by the caller that
    /// performs the lookup, never by this library's own logic.
    TransportFailure,
    /// A structurally inconsistent proof: the target position and tree size
    /// do not describe a leaf under a peak.
    InvalidProof,
}

} // verus!
