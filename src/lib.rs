//! Resolution of an album's images into conversion jobs: every image gets its
//! ordered list of operations and a collision-free, sortable output path.

pub mod album;
pub mod catalog;
pub mod command;
pub mod decimal;
pub mod laws;
pub mod path;
pub mod resolve;

pub use album::{Album, Image, NamedSet, ParameterSet, ResolveError, Transformation};
pub use catalog::Catalog;
pub use command::conversion_arguments;
pub use decimal::{get_max_length, pad_left, to_decimal};
pub use path::{contains_nul, join_path};
pub use resolve::prepare_parameters;
