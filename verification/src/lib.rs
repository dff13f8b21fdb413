//! Measures how much of a project's dependency closure sits inside regions of
//! elevated trust: the closure and graph of the resolved packages, and the
//! count of syntax units that lie in trust-escalated regions of their sources.

pub mod analyzer;
pub mod builder;
pub mod closure;
pub mod duplicates;
pub mod error;
pub mod exposure;
pub mod format;
pub mod graph;
pub mod identity;
pub mod metadata;
pub mod nesting;
pub mod platform;
pub mod reach;
pub mod render;
pub mod syntax;
pub mod text;
