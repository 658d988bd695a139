//! Questions about paths that the disk answers.

use crate::path::FilePath;
use vstd::prelude::*;

verus! {

/// `probe`, asked about the path `p`, may have given `answer`.
pub open spec fn answered<F: Fn(&FilePath) -> bool>(probe: F, p: Seq<u8>, answer: bool) -> bool {
    exists|asked: &FilePath| asked@ == p && #[trigger] call_ensures(probe, (asked,), answer)
}

/// `probe` can be asked about every path.
pub open spec fn asks_anything<F: Fn(&FilePath) -> bool>(probe: F) -> bool {
    forall|p: &FilePath| #[trigger] call_requires(probe, (p,))
}

} // verus!
