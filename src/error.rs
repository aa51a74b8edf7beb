use vstd::prelude::*;

verus! {

/// Everything that can go wrong while acquiring a series.
#[derive(Debug)]
pub enum RobinError {
    /// No known source handles the locator.
    UnsupportedSource,
    /// A transport or HTTP failure, with its message.
    Network(String),
    /// Expected structure was absent, or a range or number was malformed.
    Parse(String),
    /// A filesystem failure while staging, with its message.
    Io(String),
    /// A failure surfaced by an output sink, with its message.
    Packaging(String),
}

} // verus!
