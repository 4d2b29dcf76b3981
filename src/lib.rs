//! A filtering DNS forwarder's verified core: parsers for block, allow and
//! alias lists, the keys and lookup order of the domain stores, the decisions
//! taken for each DNS request, the retry policy of fetches, and the resolution
//! of configured source locations.
pub mod compile;
pub mod fetch;
pub mod formats;
pub mod handler;
pub mod parser;
pub mod pattern;
pub mod source;
pub mod store;
pub mod text;
