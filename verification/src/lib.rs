//! Chops WebAssembly text-format functions into microtransactions: fragments
//! that perform at most one memory access before returning the table index of
//! their continuation, so that an external dispatcher can drive execution.
//!
//! The crate works on its own model of the supported WebAssembly subset: an
//! [`instructions::Opcode`] per instruction, together with its verbatim source
//! text and source offset. A front end parses WAT into this model; the
//! transform itself is pure and deterministic.

use vstd::prelude::*;

pub mod config;
pub mod emit;
pub mod module;
pub mod split;
pub mod transform;
pub mod instructions;
pub mod interp;
pub mod text;

verus! {

/// A fatal condition met while transforming a module. The transform is
/// all-or-nothing: any of these aborts it with no partial-output guarantee.
#[derive(Debug)]
pub enum TransformError {
    /// An opcode outside the enumerated supported subset, carrying its
    /// verbatim source text.
    UnsupportedOpcode(String),
    /// A pop on an empty operand stack, or a pop below the innermost scope's
    /// starting depth.
    UnbalancedStack,
    /// An `end` without a matching `block`, or a scope-end search that fell
    /// off the end of an instruction sequence.
    UnbalancedScope,
}

} // verus!
