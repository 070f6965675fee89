//! Read-only inspection of a replicated-log key-value store: reversible escaping of
//! binary keys and values, the layout of log-entry and region-metadata keys, decoding
//! of stored records, and a bounded, early-stopping range scan.
pub mod codec;
pub mod keys;
pub mod scan;
pub mod wire;
pub mod record;
pub mod inspect;
