use vstd::prelude::*;

verus! {

/// Why a scrape stopped.
#[derive(Clone, Copy, Debug, PartialEq, Eq, Structural)]
pub enum ScrapeError {
    /// A fetch failed in transport or returned a non-success status.
    Network,
    /// The page counter could not be found or read as an integer.
    Parse,
}

} // verus!
