pub mod codec;
pub mod fanout;
pub mod json;
pub mod model;
pub mod pipeline;
pub mod players;
pub mod stats;
pub mod subs;
pub mod store;
pub mod text;

use vstd::prelude::*;

verus! {

/// Errors surfaced by the store and the fetch pipeline.
#[derive(Debug)]
pub enum StoreError {
    /// A required field (the match id) could not be located in the payload.
    MissingMatchId,
    /// A stored blob or index entry could not be decoded.
    CorruptRecord,
    /// The underlying storage engine failed.
    Backend,
}


} // verus!
