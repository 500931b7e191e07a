//! Verified core of a variable-font feature-compilation service: axis
//! normalization, a cache of sparse interpolation models, resolution of
//! per-location metric samples into a rounded default plus region
//! deltas, axis-table assembly with name-identifier allocation, and the
//! translation of diagnostic byte spans into UTF-16 code units.
//!
//! Parsing of feature syntax and binary table serialization are the
//! work of outside collaborators; every call into them stands behind a
//! trusted wrapper in `interop`.

use vstd::prelude::*;

pub mod axes;
pub mod cache;
pub mod fixed;
pub mod fvar;
pub mod interop;
pub mod locations;
pub mod messages;
pub mod resolver;
pub mod utf16;

verus! {

/// The fatal error kinds that variable-font assembly can report.
#[derive(Clone, Copy, Debug, PartialEq, Eq, Structural)]
pub enum VariationError {
    /// An axis tag was not a valid four-character identifier.
    InvalidAxisTag,
    /// The interpolation model could not decompose a metric into deltas.
    ResolutionFailed,
    /// Allocating a name identifier would pass the largest allowed one.
    IdentifierOverflow,
    /// Resolution of named numeric design values is intentionally
    /// unimplemented and always fails with this kind.
    UnsupportedOperation,
}

} // verus!
