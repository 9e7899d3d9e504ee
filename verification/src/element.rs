//! The accessibility tree as the library sees it: a snapshot of elements with
//! the attributes that were read from them.

use vstd::prelude::*;

verus! {

/// One element of an accessibility tree, with its attributes as they were read.
///
/// Every attribute may be absent. `handle` identifies the element to whoever
/// took the snapshot and is not interpreted here.
#[derive(Debug)]
pub struct AccessibilityElement {
    pub handle: u64,
    pub role: Option<String>,
    pub subrole: Option<String>,
    pub windows: Option<Vec<AccessibilityElement>>,
    pub children: Option<Vec<AccessibilityElement>>,
    pub actions: Option<Vec<String>>,
}

/// The elements that a sequence of references points to.
pub open spec fn targets(refs: Seq<&AccessibilityElement>) -> Seq<AccessibilityElement> {
    Seq::new(refs.len(), |i: int| *refs[i])
}

} // verus!
