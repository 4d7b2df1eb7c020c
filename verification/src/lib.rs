//! Rewrite a chain of trait projections into the nested fully-qualified path
//! the compiler would otherwise require by hand.
//!
//! The input is `SourceType | Trait1::Item | Trait2::Item ...`: a source type
//! followed by chain entries, each a trait path whose trailing segment names
//! the associated type, constant or function to project on. Each entry wraps
//! the accumulated path in one more fully-qualified cast, so the chain above
//! becomes `<<SourceType as Trait1>::Item as Trait2>::Item`. Generic
//! arguments on the source type, the traits and the items pass through
//! verbatim. An entry too short to split into trait and item is rejected
//! with a fixed guidance message; everything else the host grammar's own
//! type-path parser accepts or rejects.
pub mod expand;
pub mod host;
pub mod model;

pub use expand::ff;
pub use expand::ExpandError;
