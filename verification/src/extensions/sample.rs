//! Sample extensions. They ship as archives in the source tree's
//! `extensions/` directory and are installed from the extension list;
//! nothing is generated at run time.

use vstd::prelude::*;

verus! {

/// Make sure the sample archives exist. They are part of the source tree,
/// so there is nothing to do.
pub fn ensure_sample_archives() {
}

} // verus!
