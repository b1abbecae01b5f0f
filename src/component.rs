//! The component traits: layout and draw for every component, and a build
//! step for those that keep state across frames.
use vstd::prelude::*;
use crate::canvas::{painted_within, Canvas, Paint};
use crate::context::{BuildContext, DrawContext, StateContext};
use crate::geometry::{Bounds, Rect, Size};
use crate::layout::{LayoutNode, Placement};
use crate::state::{after_build, issued_after_build, BuildError, Identity, StateHandle};

verus! {

/// `after` differs from `before` only in values of states that `owned`
/// admits: the same identities live, each with the same instance and build
/// mark.
pub open spec fn writes_only<S>(
    before: StateContext<S>,
    after: StateContext<S>,
    owned: spec_fn(Identity) -> bool,
) -> bool {
    &&& after.store().wf()
    &&& after.store().frame_spec() == before.store().frame_spec()
    &&& after.store().issued() == before.store().issued()
    &&& after@.dom() == before@.dom()
    &&& forall|k: Identity| #[trigger] before@.contains_key(k) ==> {
        &&& after@[k].id == before@[k].id
        &&& after@[k].instance == before@[k].instance
        &&& after@[k].built == before@[k].built
        &&& !owned(k) ==> after@[k] == before@[k]
    }
}

/// Writing within `f` and then within `g`, where `g` admits no more than
/// `f`, is writing within `f`.
pub proof fn lemma_writes_only_trans<S>(
    a: StateContext<S>,
    b: StateContext<S>,
    c: StateContext<S>,
    f: spec_fn(Identity) -> bool,
    g: spec_fn(Identity) -> bool,
)
    requires
        writes_only(a, b, f),
        writes_only(b, c, g),
        forall|k: Identity| #[trigger] g(k) ==> f(k),
    ensures
        writes_only(a, c, f),
{
    assert forall|k: Identity| #[trigger] a@.contains_key(k) implies {
        &&& c@[k].id == a@[k].id
        &&& c@[k].instance == a@[k].instance
        &&& c@[k].built == a@[k].built
        &&& !f(k) ==> c@[k] == a@[k]
    } by {
        assert(b@.contains_key(k));
    }
}

/// A node of the component tree, generic over the application's message
/// type and over the type of persisted state.
pub trait TmpComponent<Message, S>: Sized {
    /// The size that `layout` resolves for `bounds`.
    spec fn layout_size(&self, bounds: Bounds) -> Size;

    /// Where `layout` places the children for `bounds`.
    spec fn layout_placements(&self, bounds: Bounds) -> Seq<Placement>;

    /// What `layout` for `bounds` makes of the node `before`: a leaf leaves
    /// it as it is; a container records the placement and the node of each
    /// child. A component's own size is recorded by its parent.
    spec fn records(&self, bounds: Bounds, before: LayoutNode, after: LayoutNode) -> bool;

    /// The identities whose state this component (or a descendant) may write
    /// while drawing.
    spec fn owns(&self, id: Identity) -> bool;

    /// What one draw does: from this component, a state context and the
    /// paints `before`, to the component `after`, the state context
    /// `after_state` and the paints `after_paints`, drawing in `region` with
    /// the resolved `node`.
    spec fn draws(
        &self,
        after: Self,
        before_state: StateContext<S>,
        after_state: StateContext<S>,
        region: Rect,
        node: LayoutNode,
        before: Seq<Paint>,
        after_paints: Seq<Paint>,
    ) -> bool;

    /// Resolves this component's size for `bounds` and records the layout of
    /// its children in `node`. The result is a function of the component and
    /// the bounds alone, and satisfies well-formed bounds.
    fn layout(&self, bounds: Bounds, node: &mut LayoutNode) -> (r: Size)
        ensures
            r == self.layout_size(bounds),
            bounds.wf() ==> r.fits(bounds),
            self.records(bounds, *old(node), *final(node)),
    ;

    /// Paints this component and its children within `draw_ctx.region`,
    /// writing no state but its own; a region without cells paints nothing.
    fn draw(&mut self, state_ctx: &mut StateContext<S>, draw_ctx: &DrawContext, canvas: &mut Canvas)
        requires
            old(state_ctx).store().wf(),
            draw_ctx.region.wf(),
        ensures
            old(self).draws(*final(self), *old(state_ctx), *final(state_ctx), draw_ctx.region, *draw_ctx.node, old(canvas)@, final(canvas)@),
            writes_only(*old(state_ctx), *final(state_ctx), |k: Identity| old(self).owns(k)),
            painted_within(old(canvas)@, final(canvas)@, draw_ctx.region),
            draw_ctx.region.is_empty_spec() ==> final(canvas)@ == old(canvas)@,
    ;
}

/// Layout is idempotent: two `layout` calls on the same component with the
/// same bounds resolve the same size and place the children alike, since
/// each call's result is the component's `layout_size` and
/// `layout_placements` for those bounds.
pub proof fn lemma_layout_idempotent<Message, S, C: TmpComponent<Message, S>>(c: &C, first: Bounds, second: Bounds)
    requires
        first == second,
    ensures
        c.layout_size(first) == c.layout_size(second),
        c.layout_placements(first) == c.layout_placements(second),
{
}

/// A component whose persisted state lives in the state store across frames.
/// `Properties` come from the parent each frame and are never kept.
pub trait StatefulComponent<Message, S>: TmpComponent<Message, S> {
    type Properties;

    /// The identity under which a component made from `props` keeps its state.
    spec fn identity_of(props: Self::Properties) -> Identity;

    /// The state that a component made from `props` starts from.
    spec fn initial_state(props: Self::Properties) -> S;

    /// `c` is the component made from `props` whose state `h` stands for.
    spec fn made(c: Self, props: Self::Properties, h: StateHandle) -> bool;

    /// Builds the state of `identity_of(props)` through `ctx` (see
    /// `BuildContext::state`) and makes the component for this frame. Fails,
    /// changing nothing, exactly where that identity was already built in
    /// this frame.
    fn build(ctx: &mut BuildContext<S>, props: Self::Properties) -> (r: Result<Self, BuildError>)
        requires
            old(ctx).store().wf(),
        ensures
            final(ctx).store().wf(),
            final(ctx).store().frame_spec() == old(ctx).store().frame_spec(),
            final(ctx)@ == after_build(
                old(ctx)@,
                Self::identity_of(props),
                Self::initial_state(props),
                old(ctx).store().issued(),
            ),
            final(ctx).store().issued() == issued_after_build(old(ctx)@, Self::identity_of(props), old(ctx).store().issued()),
            r.is_err() <==> old(ctx)@.contains_key(Self::identity_of(props)) && old(ctx)@[Self::identity_of(props)].built,
            r.is_err() ==> r == Err::<Self, BuildError>(BuildError::IdentityCollision(Self::identity_of(props))),
            r.is_ok() ==> Self::made(
                r.unwrap(),
                props,
                StateHandle { id: Self::identity_of(props), frame: old(ctx).store().frame_spec() },
            ),
    ;
}

} // verus!
