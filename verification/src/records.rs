//! The record data model: the stored record, its lifecycle status, the
//! enriched read-time projection, and the store's error type.

use vstd::prelude::*;
use crate::keyed::Id;

verus! {

/// Lifecycle tag of a record.
///
/// A record is created as `New`. The store offers no operation that moves
/// the status on its own: it changes only when `update_evidence` replaces
/// the whole record, and no transition is ruled out there (`Close` back to
/// `New` included). That looseness is the store's stated behaviour, kept
/// deliberately rather than tightened in passing.
#[derive(Clone, Copy, Debug, PartialEq, Eq, Structural)]
pub enum Status {
    New,
    Voted,
    Close,
}

/// Opaque identity of the account a record belongs to.
#[derive(Clone, Copy, Debug, PartialEq, Eq)]
pub struct AccountId {
    pub bytes: [u8; 32],
}

/// Opaque fixed-size content reference (a cryptographic digest); never
/// checked against any actual blob.
#[derive(Clone, Copy, Debug, PartialEq, Eq)]
pub struct FileHash {
    pub bytes: [u8; 32],
}

/// A stored evidence record.
#[derive(Debug)]
pub struct EvidenceNFT {
    /// Free-form text; unbounded, not validated.
    pub description: String,
    /// Identity of the associated account.
    pub owner: AccountId,
    /// Content reference for the evidence file.
    pub file: FileHash,
    /// Foreign key into the case lookup table; not checked for existence
    /// when the record is written.
    pub case_id: Id,
    /// Lifecycle tag; see [`Status`].
    pub status: Status,
}

impl Clone for EvidenceNFT {
    fn clone(&self) -> (r: Self)
        ensures
            r == *self,
    {
        EvidenceNFT {
            description: self.description.clone(),
            owner: self.owner,
            file: self.file,
            case_id: self.case_id,
            status: self.status,
        }
    }
}

/// Read-time projection of a record: every stored field, plus the id it is
/// stored under and the case title resolved at read time. Never persisted.
#[derive(Debug)]
pub struct EvidenceNFTOutput {
    pub evidence_id: Id,
    pub description: String,
    pub owner: AccountId,
    pub file: FileHash,
    pub case_id: Id,
    /// Title of the record's case, if the lookup table knows the case;
    /// absent otherwise, never an error.
    pub case_title: Option<String>,
    pub status: Status,
}

/// The projection of record `evidence` stored under `evidence_id`, carrying
/// `case_title` as resolved by the caller.
pub open spec fn output_of(
    evidence_id: Id,
    case_title: Option<String>,
    evidence: EvidenceNFT,
) -> EvidenceNFTOutput {
    EvidenceNFTOutput {
        evidence_id: evidence_id,
        description: evidence.description,
        owner: evidence.owner,
        file: evidence.file,
        case_id: evidence.case_id,
        case_title: case_title,
        status: evidence.status,
    }
}

impl EvidenceNFTOutput {
    /// Build the enriched view of `evidence` under `evidence_id`.
    pub fn get_evidence(
        evidence_id: Id,
        case_title: Option<String>,
        evidence: &EvidenceNFT,
    ) -> (r: EvidenceNFTOutput)
        ensures
            r == output_of(evidence_id, case_title, *evidence),
    {
        EvidenceNFTOutput {
            evidence_id: evidence_id,
            description: evidence.description.clone(),
            owner: evidence.owner,
            file: evidence.file,
            case_id: evidence.case_id,
            case_title: case_title,
            status: evidence.status,
        }
    }
}

/// Errors the store reports as recoverable results.
#[derive(Clone, Copy, Debug, PartialEq, Eq, Structural)]
pub enum Error {
    /// The given id is not a live key of the store.
    EvidenceNotFound,
}

} // verus!
