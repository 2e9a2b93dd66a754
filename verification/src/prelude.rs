//! A "prelude" for consumers of the `wikidot_path` crate.
//!
//! This prelude includes the most common exports from the crate, and is
//! provided for convenience without requiring programs to do a glob import
//! of the whole crate.

pub use crate::options::PageOptions;
pub use crate::redirect::redirect;
pub use crate::value::ArgumentValue;
