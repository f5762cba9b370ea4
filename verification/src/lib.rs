//! Frequency statistics of section headers in a corpus of wiki-markup pages.
//!
//! The library walks a parsed markup tree, extracts the plain text of each
//! heading, normalizes it into a lookup key, and counts how often each key
//! occurs at every heading level from 2 through 6.

use vstd::prelude::*;

pub mod header_stats;
pub mod key;
pub mod nodes;
pub mod page;
pub mod trim;

verus! {

} // verus!
