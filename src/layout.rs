//! The layout tree produced by one layout pass: each node holds its resolved
//! size, where its children were placed, and the children's own nodes.
use vstd::prelude::*;
use crate::geometry::Size;

verus! {

/// Where a child was placed: its offset from the parent's corner and its
/// resolved size.
#[derive(Clone, Copy, Debug, PartialEq, Eq, Structural)]
pub struct Placement {
    pub x: u16,
    pub y: u16,
    pub size: Size,
}

/// The layout of one component for one frame.
pub struct LayoutNode {
    pub size: Size,
    pub placements: Vec<Placement>,
    pub children: Vec<LayoutNode>,
}

impl LayoutNode {
    /// A node with no size and no children, ready to be filled by `layout`.
    pub fn new() -> (r: LayoutNode)
        ensures
            r.size == (Size { width: 0, height: 0 }),
            r.placements@.len() == 0,
            r.children@.len() == 0,
    {
        LayoutNode { size: Size { width: 0, height: 0 }, placements: Vec::new(), children: Vec::new() }
    }
}

} // verus!
