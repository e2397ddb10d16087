//! Version-identifier and version-range query parsing.
//!
//! Two pipelines share the data model in [`version`]:
//! - a strict validator for three-component `major.minor.patch` version
//!   identifiers with optional pre-release and build qualifiers, and
//! - a range-query parser that turns expressions such as
//!   `^5.1.6 ^6.1.2 || <=1.*` into a [`version::VersionQuery`] tree,
//!   coercing partial versions and reducing operator sequences by
//!   precedence.

pub mod chars;
pub mod error;
pub mod partial;
pub mod range;
pub mod reduce;
pub mod validator;
pub mod version;
