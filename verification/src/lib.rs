//! Detects renamed API operation identifiers between two versions of an
//! API contract document and repairs references to them inside a generated
//! Go client source tree.
//!
//! The diff engine ([`diff`]) extracts the (path, verb) -> (tag,
//! identifier) records of two contract documents and reports every
//! identifier change as a sorted rename report ([`models`]).  The rewrite
//! side builds a lookup table from that report ([`lookup`]), locates
//! syntactic patterns in each source file with tree-sitter ([`query`]),
//! plans precisely bounded byte-range replacements ([`plan`]) and applies
//! them in descending start order ([`apply`], [`fix`]).

use vstd::prelude::*;

pub mod apply;
pub mod diff;
pub mod fix;
pub mod lookup;
pub mod models;
pub mod normalize;
pub mod plan;
pub mod query;
pub mod text;

pub use normalize::fix_naming;

verus! {

} // verus!
