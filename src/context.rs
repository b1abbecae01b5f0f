//! Accessors handed out for each phase of a frame. Each takes the state store
//! by value and hands it on to the next phase, so the phases run in order and
//! no accessor survives its phase: a `BuildContext` opens the frame, turning
//! it into a `StateContext` ends the build pass (and reclaims what was not
//! built), and turning that back into the store ends the frame.
use vstd::prelude::*;
use crate::geometry::Rect;
use crate::layout::LayoutNode;
use crate::state::{after_begin, after_build, after_end, issued_after_build, BuildError, Identity, Slot, StateHandle, StateStore};

verus! {

/// Access to the state store during the build pass.
pub struct BuildContext<S> {
    store: StateStore<S>,
}

impl<S> View for BuildContext<S> {
    type V = Map<Identity, Slot<S>>;

    closed spec fn view(&self) -> Map<Identity, Slot<S>> {
        self.store@
    }
}

impl<S> BuildContext<S> {
    /// The store as it stands in this phase.
    pub closed spec fn store(&self) -> StateStore<S> {
        self.store
    }

    /// Opens a frame on `store` (see `StateStore::begin_frame`).
    pub fn begin(store: StateStore<S>) -> (r: BuildContext<S>)
        requires
            store.wf(),
        ensures
            r.store().wf(),
            r@ == after_begin(store@),
            r.store().frame_spec() == store.frame_spec().wrapping_add(1),
            r.store().issued() == store.issued(),
    {
        let mut store = store;
        store.begin_frame();
        BuildContext { store }
    }

    /// Fetches or initialises the state of `id` (see `StateStore::build_state`).
    pub fn state(&mut self, id: Identity, init: S) -> (r: Result<StateHandle, BuildError>)
        requires
            old(self).store().wf(),
        ensures
            final(self).store().wf(),
            final(self).store().frame_spec() == old(self).store().frame_spec(),
            r.is_err() <==> old(self)@.contains_key(id) && old(self)@[id].built,
            r.is_err() ==> r == Err::<StateHandle, BuildError>(BuildError::IdentityCollision(id)),
            r.is_ok() ==> r == Ok::<StateHandle, BuildError>(StateHandle { id, frame: old(self).store().frame_spec() }),
            final(self)@ == after_build(old(self)@, id, init, old(self).store().issued()),
            final(self).store().issued() == issued_after_build(old(self)@, id, old(self).store().issued()),
    {
        self.store.build_state(id, init)
    }

    /// Ends the build pass (see `StateStore::end_build`) and hands the store
    /// on to layout and draw.
    pub fn finish(self) -> (r: StateContext<S>)
        requires
            self.store().wf(),
        ensures
            r.store().wf(),
            r@ == after_end(self@),
            r.store().frame_spec() == self.store().frame_spec(),
            r.store().issued() == self.store().issued(),
    {
        let mut store = self.store;
        store.end_build();
        StateContext { store }
    }
}

/// Access to persisted state during layout and draw.
pub struct StateContext<S> {
    store: StateStore<S>,
}

impl<S> View for StateContext<S> {
    type V = Map<Identity, Slot<S>>;

    closed spec fn view(&self) -> Map<Identity, Slot<S>> {
        self.store@
    }
}

impl<S> StateContext<S> {
    /// The store as it stands in this phase.
    pub closed spec fn store(&self) -> StateStore<S> {
        self.store
    }

    /// The state that `h` stands for (see `StateStore::get`).
    pub fn get(&self, h: StateHandle) -> (r: Option<&S>)
        requires
            self.store().wf(),
        ensures
            r.is_some() <==> h.frame == self.store().frame_spec() && self@.contains_key(h.id),
            r.is_some() ==> *r.unwrap() == self@[h.id].value,
    {
        self.store.get(h)
    }

    /// Replaces the state that `h` stands for (see `StateStore::set`).
    pub fn set(&mut self, h: StateHandle, v: S) -> (r: bool)
        requires
            old(self).store().wf(),
        ensures
            final(self).store().wf(),
            final(self).store().frame_spec() == old(self).store().frame_spec(),
            final(self).store().issued() == old(self).store().issued(),
            r <==> h.frame == old(self).store().frame_spec() && old(self)@.contains_key(h.id),
            r ==> final(self)@ == old(self)@.insert(h.id, crate::state::with_value(old(self)@[h.id], v)),
            !r ==> final(self)@ == old(self)@,
    {
        self.store.set(h, v)
    }

    /// Ends the frame and gives the store back to the render loop.
    pub fn finish(self) -> (r: StateStore<S>)
        requires
            self.store().wf(),
        ensures
            r == self.store(),
    {
        self.store
    }
}

/// What a draw call receives: the region it may paint, in screen
/// coordinates, and the layout that was resolved for the component.
pub struct DrawContext<'a> {
    pub region: Rect,
    pub node: &'a LayoutNode,
}

impl<'a> DrawContext<'a> {
    /// The region this draw call may paint.
    pub fn global_rect(&self) -> (r: Rect)
        ensures
            r == self.region,
    {
        self.region
    }

    /// The context for child `i`: its node, and the part of this region
    /// that its placement covers.
    pub fn child(&self, i: usize) -> (r: DrawContext<'a>)
        requires
            self.region.wf(),
            i < self.node.placements@.len(),
            i < self.node.children@.len(),
        ensures
            r.node == self.node.children@[i as int],
            r.region == self.region.sub_region_spec(
                self.node.placements@[i as int].x,
                self.node.placements@[i as int].y,
                self.node.placements@[i as int].size,
            ),
            r.region.wf(),
            r.region.inside(self.region),
    {
        let p = self.node.placements[i];
        DrawContext { region: self.region.sub_region(p.x, p.y, p.size), node: &self.node.children[i] }
    }
}

} // verus!
