//! A library to parse Wikidot-compatible paths.
//!
//! Wikidot accepts paths in an unusual manner: each argument is submitted as
//! another "directory". For instance, the path `/scp-xxxx/norender/true/edit/true`
//! is how you access page `scp-xxxx` with flags `edit` and `norender` activated.
//!
//! Two request parsers coexist, differing in how the first path segment
//! splits into categories and slug: [`parse::Request`] keeps the whole
//! colon-separated category chain, while [`request::Request`] keeps only the
//! piece before the first colon and folds the rest into the slug.

pub mod arguments;
pub mod keymap;
pub mod numbers;
pub mod options;
pub mod parse;
pub mod prelude;
pub mod redirect;
pub mod request;
pub mod schema;
pub mod segments;
pub mod value;

pub use crate::options::PageOptions;
pub use crate::redirect::redirect;
pub use crate::value::ArgumentValue;
