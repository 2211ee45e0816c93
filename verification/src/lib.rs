//! A layered, typed configuration aggregator.
//!
//! Zero or more configuration sources are merged, in order, into one view;
//! for a key present in several sources the most recently merged source wins.
//! Typed lookups (`get_int`, `get_string`) read the merged view; a missing
//! key, or a value that the requested type cannot be read from, is reported
//! as absent, never as an error.

pub mod configset;
pub mod intparse;
pub mod laws;
pub mod text;

pub use configset::ConfigError;
pub use configset::ConfigSet;
pub use configset::Entry;
pub use configset::SourceFile;
pub use intparse::parse_config_int;
pub use text::contains_nul;
pub use text::nul_terminated;
