pub mod edits;
pub mod http;
pub mod members;
pub mod merge;
pub mod snapshot;
