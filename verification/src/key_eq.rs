//! Equality of keys: two keys are equal when they have the same segments
//! and the same index, whatever tokens they were written with.

use vstd::prelude::*;
use vstd::std_specs::cmp::PartialEqSpecImpl;
use crate::key::KeyNode;

verus! {

impl KeyNode {
    /// Whether the window of visible identifiers lies within the
    /// identifiers and is not empty.
    pub fn is_wf(&self) -> (b: bool)
        ensures
            b == self.wf(),
    {
        let n = self.idents.len();
        self.mask_visible >= 1 && self.mask_left <= n && self.mask_visible <= n - self.mask_left
            && self.mask_right == n - self.mask_left - self.mask_visible
    }
}

impl PartialEq for KeyNode {
    fn eq(&self, other: &Self) -> (r: bool) {
        self.is_wf() && other.is_wf() && self.same(other)
    }
}

impl Eq for KeyNode {

}

impl PartialEqSpecImpl for KeyNode {
    open spec fn obeys_eq_spec() -> bool {
        true
    }

    open spec fn eq_spec(&self, other: &Self) -> bool {
        self.wf() && other.wf() && self@.same(other@)
    }
}

} // verus!
