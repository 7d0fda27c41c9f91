//! The music player's lifecycle.
use vstd::prelude::*;

verus! {

/// Releases the music player; there is nothing to release.
pub fn uninit() {
}

} // verus!
