//! File names in one naming convention.
//!
//! A name is split into words where its characters change class or case
//! ([`segment`]), and the words are written in `snake_case`, `kebab-case`,
//! `camelCase` or `PascalCase` ([`convention`]). [`filename`] does so for
//! each label of a file's stem and puts the extension in lowercase.
//! [`roundtrip`] shows when a converted name is converted to itself.

pub mod chars;
pub mod casing;
pub mod segment;
pub mod convention;
pub mod roundtrip;
pub mod filename;
