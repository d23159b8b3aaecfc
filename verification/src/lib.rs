//! Execution core of one remote sub-request inside a federated query plan:
//! building deduplicated representation variables for a downstream call,
//! stitching the downstream response back into the response tree at the
//! right positions, and remapping downstream errors onto original paths.

pub mod error;
pub mod fetch;
pub mod laws;
pub mod operation;
pub mod path;
pub mod rewrites;
pub mod selection;
pub mod stitch;
pub mod value;
pub mod variables;
