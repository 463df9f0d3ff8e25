//! A small URL parser: a grammar of six rules (`scheme`, `domain`, `path`,
//! `query`, `fragment` and the composite `url`) and a builder that turns a
//! successful `url` match into a structured record.
//!
//! The grammar is strict about delimiters and ordering but permissive about
//! the content of each component: a `scheme` is one or more ASCII
//! alphanumerics, a `domain` is one or more characters other than `/` and
//! `?`, and the optional `path`, `query` and `fragment` components are
//! introduced by `/`, `?` and `#` in that fixed order.

mod grammar;
mod parser;

pub use grammar::Rule;
pub use grammar::UrlParts;
pub use parser::ParseError;
pub use parser::ParsedURL;
pub use parser::URLParser;
