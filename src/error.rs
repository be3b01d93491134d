use vstd::prelude::*;

verus! {

/// What can go wrong while loading or building rules and folders.
#[derive(Debug, PartialEq, Eq, Structural)]
pub enum ConfigError {
    /// The declarative source does not exist.
    SourceNotFound,
    /// The source exists but could not be read.
    Unreadable,
    /// The source could not be parsed as a document of the expected shape.
    Parse,
    /// A pattern of a `Contains` rule does not compile.
    InvalidPattern,
    /// A time-range expression is malformed or names an unknown date.
    InvalidTimeRange,
}

} // verus!
