//! A verified record registry: a keyed store of evidence records with
//! identifier allocation, lifecycle status, point lookup, enumeration,
//! filtered enumeration, and read-side enrichment of each record with a
//! title resolved from a case lookup table.

pub mod keyed;
pub mod laws;
pub mod lookup;
pub mod records;
pub mod store;

pub use keyed::Id;
pub use lookup::CaseLookup;
pub use records::{AccountId, Error, EvidenceNFT, EvidenceNFTOutput, FileHash, Status};
pub use store::Evidence;
