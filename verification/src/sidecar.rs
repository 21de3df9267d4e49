//! Blob sidecars in their two formats, as the store sees them: a size, and
//! the answer to "which of these versioned hashes can you resolve?".

use alloy_eips::eip4844::{BlobAndProofV1, BlobAndProofV2, BlobTransactionSidecar};
use alloy_eips::eip7594::BlobTransactionSidecarEip7594;
use alloy_primitives::B256;
use vstd::prelude::*;

verus! {

/// `alloy_eips::eip4844::BlobTransactionSidecar`: blobs with their
/// commitments and one proof for each blob. The store carries it as it is.
#[verifier::external_type_specification]
#[verifier::external_body]
pub struct ExBlobTransactionSidecar(BlobTransactionSidecar);

/// `alloy_eips::eip7594::BlobTransactionSidecarEip7594`: blobs with their
/// commitments and a proof for each cell of each blob. The store carries it
/// as it is.
#[verifier::external_type_specification]
#[verifier::external_body]
pub struct ExBlobTransactionSidecarEip7594(BlobTransactionSidecarEip7594);

/// `alloy_eips::eip4844::BlobAndProofV1`: a blob and its proof, as a lookup
/// in the first format hands them out.
#[verifier::external_type_specification]
#[verifier::external_body]
pub struct ExBlobAndProofV1(BlobAndProofV1);

/// `alloy_eips::eip4844::BlobAndProofV2`: a blob and its cell proofs, as a
/// lookup in the second format hands them out.
#[verifier::external_type_specification]
#[verifier::external_body]
pub struct ExBlobAndProofV2(BlobAndProofV2);

/// A 32-byte hash: of a transaction, or of a blob commitment with its
/// version byte.
pub type Hash32 = [u8; 32];

/// The pairs that `BlobTransactionSidecar::match_versioned_hashes` yields for
/// a sidecar and a list of requested hashes, in the order it yields them.
pub uninterp spec fn matches_v1(sidecar: BlobTransactionSidecar, hashes: Seq<Hash32>) -> Seq<(usize, BlobAndProofV1)>;

/// The pairs that `BlobTransactionSidecarEip7594::match_versioned_hashes`
/// yields for a sidecar and a list of requested hashes, in the order it
/// yields them.
pub uninterp spec fn matches_v2(sidecar: BlobTransactionSidecarEip7594, hashes: Seq<Hash32>) -> Seq<(usize, BlobAndProofV2)>;

/// `BlobTransactionSidecar::size`: a heuristic for the memory the sidecar
/// takes. Nothing is claimed of the number.
pub assume_specification[ BlobTransactionSidecar::size ](sidecar: &BlobTransactionSidecar) -> (bytes: usize);

/// `BlobTransactionSidecarEip7594::size`: a heuristic for the memory the
/// sidecar takes. Nothing is claimed of the number.
pub assume_specification[ BlobTransactionSidecarEip7594::size ](sidecar: &BlobTransactionSidecarEip7594) -> (bytes: usize);

/// `BlobTransactionSidecar::match_versioned_hashes`, collected. Each pair is
/// a position in `hashes` whose hash is the versioned hash of one of the
/// sidecar's commitments, with that blob and its proof.
#[verifier::external_body]
pub(crate) fn match_versioned_hashes_v1(
    sidecar: &BlobTransactionSidecar,
    hashes: &[Hash32],
) -> (found: Vec<(usize, BlobAndProofV1)>)
    ensures
        found@ == matches_v1(*sidecar, hashes@),
        forall|k: int| 0 <= k < found.len() ==> (#[trigger] found[k]).0 < hashes.len(),
{
    let wanted: Vec<B256> = hashes.iter().map(|hash| B256::from(*hash)).collect();
    sidecar.match_versioned_hashes(&wanted).collect()
}

/// `BlobTransactionSidecarEip7594::match_versioned_hashes`, collected. Each
/// pair is a position in `hashes` whose hash is the versioned hash of one of
/// the sidecar's commitments, with that blob and its cell proofs.
#[verifier::external_body]
pub(crate) fn match_versioned_hashes_v2(
    sidecar: &BlobTransactionSidecarEip7594,
    hashes: &[Hash32],
) -> (found: Vec<(usize, BlobAndProofV2)>)
    ensures
        found@ == matches_v2(*sidecar, hashes@),
        forall|k: int| 0 <= k < found.len() ==> (#[trigger] found[k]).0 < hashes.len(),
{
    let wanted: Vec<B256> = hashes.iter().map(|hash| B256::from(*hash)).collect();
    sidecar.match_versioned_hashes(&wanted).collect()
}

/// A blob sidecar in one of its two formats.
#[derive(Debug, PartialEq, Eq)]
pub enum SidecarVariant {
    /// Blobs with one proof each.
    Eip4844(BlobTransactionSidecar),
    /// Blobs with a proof for each of their cells.
    Eip7594(BlobTransactionSidecarEip7594),
}

impl SidecarVariant {
    /// The sidecar's size heuristic, in bytes.
    pub fn size(&self) -> (bytes: usize) {
        match self {
            SidecarVariant::Eip4844(sidecar) => sidecar.size(),
            SidecarVariant::Eip7594(sidecar) => sidecar.size(),
        }
    }

    /// The sidecar, if it is in the format with one proof for each blob.
    pub fn as_eip4844(&self) -> (part: Option<&BlobTransactionSidecar>)
        ensures
            part == match *self {
                SidecarVariant::Eip4844(sidecar) => Some(&sidecar),
                SidecarVariant::Eip7594(_) => None,
            },
    {
        match self {
            SidecarVariant::Eip4844(sidecar) => Some(sidecar),
            SidecarVariant::Eip7594(_) => None,
        }
    }

    /// The sidecar, if it is in the format with a proof for each cell.
    pub fn as_eip7594(&self) -> (part: Option<&BlobTransactionSidecarEip7594>)
        ensures
            part == match *self {
                SidecarVariant::Eip4844(_) => None,
                SidecarVariant::Eip7594(sidecar) => Some(&sidecar),
            },
    {
        match self {
            SidecarVariant::Eip4844(_) => None,
            SidecarVariant::Eip7594(sidecar) => Some(sidecar),
        }
    }
}

/// What a sidecar answers to a request in the first format: the pairs of a
/// sidecar with one proof for each blob, and nothing from any other.
pub open spec fn answers_v1(sidecar: SidecarVariant, hashes: Seq<Hash32>) -> Seq<
    (usize, BlobAndProofV1),
> {
    match sidecar {
        SidecarVariant::Eip4844(inner) => matches_v1(inner, hashes),
        SidecarVariant::Eip7594(_) => Seq::empty(),
    }
}

/// What a sidecar answers to a request in the second format: the pairs of a
/// sidecar with a proof for each cell, and nothing from any other.
pub open spec fn answers_v2(sidecar: SidecarVariant, hashes: Seq<Hash32>) -> Seq<
    (usize, BlobAndProofV2),
> {
    match sidecar {
        SidecarVariant::Eip4844(_) => Seq::empty(),
        SidecarVariant::Eip7594(inner) => matches_v2(inner, hashes),
    }
}

} // verus!
