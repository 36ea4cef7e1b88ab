//! A record-cleaning library: it decodes line-delimited JSON records, drops
//! invalid ones through an ordered chain of stateless filters, admits at most
//! one record per distinct identity through a deduplication engine, and
//! re-emits the survivors one line per admitted record.

pub mod codec;
pub mod dedup;
pub mod filters;
pub mod pipeline;
pub mod processor;
