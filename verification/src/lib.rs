//! Versions and ranges of versions.
//!
//! A [`Version`] is read from a text such as `v1.2.3.4-rc.1+build.7` and a
//! [`Range`] from a list of constraints such as `>=1.0.0, <2.0.0, !=1.5.0`.
//! Two versions can be compared in three ways, which are kept apart by name:
//! identity ([`Version::is`]), the range order ([`Version::cmp`]), which bounds
//! are compared by and which looks at neither pre-release nor build, and the
//! precedence order ([`Version::is_older_than`]), in which a pre-release comes
//! before its release.
//!
//! Every function is verified against a contract. The contracts speak of the
//! models [`VersionView`] and [`RangeView`], of the two syntaxes as functions
//! from texts ([`grammar::version_of_text`], [`grammar::constraints_of_text`])
//! and of the range that a list of constraints denotes ([`range::range_of`]).
//! What follows from the definitions is proved beside them and in the modules
//! [`spelling`] (which texts are versions), [`round_trip`] and [`range_text`]
//! (what is written reads back), [`expand_laws`] and [`range_laws`] (what a
//! range admits).

pub mod decimal;
pub mod error;
pub mod expand;
pub mod expand_laws;
pub mod grammar;
pub mod op;
pub mod range;
pub mod range_laws;
pub mod range_text;
pub mod round_trip;
pub mod spelling;
pub mod text;
pub mod version;

pub use error::ParseError;
pub use op::Op;
pub use range::{OpGroups, Range, RangeView};
pub use version::{Version, VersionView};
