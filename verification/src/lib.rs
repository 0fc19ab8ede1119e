//! Offline replay of contract-invocation transactions: decoding, dispatch and
//! source-mapped fault diagnosis.

pub mod codec;
pub mod container;
pub mod dispatch;
pub mod envelope;
pub mod host;
pub mod pipeline;
pub mod report;
pub mod snapshot;
pub mod symbols;
pub mod text;
