//! Scaffolding of new Move packages from templates: placeholder scanning and
//! substitution, directory mirroring plans, and the decisions that drive a
//! package's creation.

pub mod text;
pub mod token;
pub mod substitute;
pub mod paths;
pub mod mirror;
pub mod casing;
pub mod package;
pub mod scaffold;
