//! A declarative narrative-progression engine: a store of typed facts,
//! conditions and rules evaluated over it, and stories whose beats complete
//! as their rules become satisfied.

pub mod text;
pub mod strings;
pub mod facts;
pub mod rules;
pub mod effects;
pub mod story;
pub mod engine;
pub mod builders;
pub mod laws;
pub mod plugin;
