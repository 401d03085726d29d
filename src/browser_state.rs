//! Process-wide flags of the browser.
use vstd::prelude::*;

verus! {

pub struct BrowserState {
    /// Whether the pipeline runs in its deterministic mode.
    pub determinism_checked: bool,
}

impl Default for BrowserState {
    fn default() -> (r: Self)
        ensures
            r.determinism_checked,
    {
        BrowserState { determinism_checked: true }
    }
}

} // verus!
