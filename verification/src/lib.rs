//! Verified core of a Lua source transformer: a numeric literal model that
//! preserves every source-visible detail, its strict text parser, and the
//! pluggable module path resolution strategies that rewrite module-loading
//! calls when files move.

pub mod cli;
pub mod number;
pub mod paths;
pub mod require;
pub mod text;
