//! A unified ignore-rule format: flat rules and named groups of rules, an
//! engine that decides whether a path is excluded, and the conversion of
//! legacy, flat ignore files into grouped documents.

pub mod boundary;
pub mod convert_ignore;
pub mod converter;
pub mod document;
pub mod error;
pub mod laws;
pub mod parser;
pub mod pattern;
pub mod plugin;
pub mod text;

pub use converter::{ConversionResult, IgnoreConverter, IgnoreFormat, PatternStatistics};
pub use document::{DotIgnore, IgnoreFile, PatternGroup};
pub use error::IgnoreError;
pub use parser::IgnoreParser;
pub use pattern::{FileProbe, Pattern, SizeComparison};
pub use plugin::{plugin_info, DotIgnorePlugin, IgnoreRules, Plugin};

use vstd::prelude::*;

verus! {

/// The version of the library.
pub const VERSION: &'static str = "0.1.0";

/// The text that describes the library.
pub open spec fn library_text() -> Seq<char> {
    "DotIgnore v"@ + VERSION@
        + "\nImplemented in Rust\nSupports Git, SVN, and Dot ignore formats"@
}

/// A short description of the library, with its version.
pub fn library_info() -> (info: String)
    ensures
        info@ == library_text(),
{
    let mut info = "DotIgnore v".to_owned();
    info.append(VERSION);
    info.append("\nImplemented in Rust\nSupports Git, SVN, and Dot ignore formats");
    info
}

} // verus!
