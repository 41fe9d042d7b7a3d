//! Dispute arbitration over registered content.
//!
//! An identity registry knows which accounts may act for a DID, a content
//! registry records contents under the digest of their encoding, and the
//! court summons jurors to disputes over contents, tallies their votes and
//! settles rewards and slashes.  Every operation takes the state, the block
//! height and the random draw it needs as arguments, and hands out the calls
//! that the ledger is to make.

pub mod cid;
pub mod content_registry;
pub mod context_court;
pub mod hashing;
pub mod identity_registry;
pub mod lists;
pub mod sorted;
pub mod table;
pub mod traits;
pub mod types;
