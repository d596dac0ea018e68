//! The scanner's error taxonomy.
//!
//! Every failure is fatal: the scan aborts at the nearest safe boundary and
//! hands the error to the caller. `Stopped` is not a failure; it carries a
//! callback-requested early termination out of the scan loops and is turned
//! into plain success at the top level.

use vstd::prelude::*;

verus! {

#[derive(Debug, Clone, PartialEq, Eq)]
pub enum FxfspError {
    /// The reader reported a failure or an unexpected short read.
    Io(String),
    /// A header's magic field did not match; carries a region label.
    BadMagic(&'static str),
    /// A structural invariant of the on-disk data failed; carries a short
    /// static message.
    Parse(&'static str),
    /// The event callback asked the scan to stop early.
    Stopped,
}

} // verus!
