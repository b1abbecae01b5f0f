//! Components built on the core: a leaf of fixed intrinsic size, the simple
//! memory panel, a column that stacks its children top to bottom, a column
//! that shares its height by weight, and a stateful counter.
use vstd::prelude::*;
use crate::canvas::{lemma_painted_nothing, lemma_painted_within_trans, painted_within, Canvas, Paint};
use crate::component::{lemma_writes_only_trans, writes_only, StatefulComponent, TmpComponent};
use crate::context::{BuildContext, DrawContext, StateContext};
use crate::flex::{distribute, share};
use crate::geometry::{clamp_spec, clamp_u16, Bounds, Rect, Size};
use crate::layout::{LayoutNode, Placement};
use crate::state::{after_build, issued_after_build, with_value, BuildError, Identity, StateHandle};

verus! {

/// A leaf that asks for a fixed size and paints nothing.
#[derive(Clone, Copy, Debug, PartialEq, Eq, Structural)]
pub struct SizedBox {
    pub width: u16,
    pub height: u16,
}

impl SizedBox {
    pub fn new(width: u16, height: u16) -> (r: SizedBox)
        ensures
            r == (SizedBox { width, height }),
    {
        SizedBox { width, height }
    }
}

impl<Message, S> TmpComponent<Message, S> for SizedBox {
    /// The intrinsic size, forced into the bounds.
    open spec fn layout_size(&self, bounds: Bounds) -> Size {
        bounds.constrain_spec(Size { width: self.width, height: self.height })
    }

    open spec fn layout_placements(&self, bounds: Bounds) -> Seq<Placement> {
        Seq::empty()
    }

    open spec fn records(&self, bounds: Bounds, before: LayoutNode, after: LayoutNode) -> bool {
        after == before
    }

    open spec fn owns(&self, id: Identity) -> bool {
        false
    }

    /// Changes nothing and paints nothing.
    open spec fn draws(
        &self,
        after: Self,
        before_state: StateContext<S>,
        after_state: StateContext<S>,
        region: Rect,
        node: LayoutNode,
        before: Seq<Paint>,
        after_paints: Seq<Paint>,
    ) -> bool {
        after == *self && after_state == before_state && after_paints == before
    }

    fn layout(&self, bounds: Bounds, node: &mut LayoutNode) -> (r: Size) {
        bounds.constrain(Size { width: self.width, height: self.height })
    }

    fn draw(&mut self, state_ctx: &mut StateContext<S>, draw_ctx: &DrawContext, canvas: &mut Canvas) {
        proof {
            lemma_painted_nothing(canvas@, draw_ctx.region);
        }
    }
}

/// `after` is `before`, followed, unless `region` has no cell, by one paint
/// of the memory panel's label over the whole of `region`.
pub open spec fn label_painted(before: Seq<Paint>, after: Seq<Paint>, region: Rect) -> bool {
    if region.is_empty_spec() {
        after == before
    } else {
        &&& after.len() == before.len() + 1
        &&& after.subrange(0, before.len() as int) == before
        &&& after.last().region == region
        &&& after.last().text@ == "Mem Simple"@
    }
}

/// A panel with simple memory figures. It takes all the width it is offered
/// and two rows where the bounds allow.
#[derive(Clone, Copy, Debug, PartialEq, Eq, Structural)]
pub struct MemSimple {}

impl MemSimple {
    pub fn new() -> (r: MemSimple)
        ensures
            r == (MemSimple {}),
    {
        MemSimple {}
    }

    /// The text that the panel shows.
    pub fn label() -> (r: String)
        ensures
            r@ == "Mem Simple"@,
    {
        "Mem Simple".to_string()
    }

    /// Paints the label over the whole region of `draw_ctx`, unless it has
    /// no cell.
    pub fn paint(&self, draw_ctx: &DrawContext, canvas: &mut Canvas)
        ensures
            label_painted(old(canvas)@, final(canvas)@, draw_ctx.region),
            painted_within(old(canvas)@, final(canvas)@, draw_ctx.region),
    {
        let rect = draw_ctx.global_rect();
        let ghost before = canvas@;
        canvas.paint(rect, MemSimple::label());
        proof {
            assert(canvas@.subrange(0, before.len() as int) =~= before);
            assert(rect.inside(rect));
        }
    }
}

impl<Message, S> TmpComponent<Message, S> for MemSimple {
    /// The full offered width, and a height of
    /// `max(min_height, min(2, max_height))`.
    open spec fn layout_size(&self, bounds: Bounds) -> Size {
        Size { width: bounds.max_width, height: clamp_spec(2, bounds.min_height as int, bounds.max_height as int) as u16 }
    }

    open spec fn layout_placements(&self, bounds: Bounds) -> Seq<Placement> {
        Seq::empty()
    }

    open spec fn records(&self, bounds: Bounds, before: LayoutNode, after: LayoutNode) -> bool {
        after == before
    }

    open spec fn owns(&self, id: Identity) -> bool {
        false
    }

    /// Paints the label over the region (see `MemSimple::paint`) and changes
    /// no state.
    open spec fn draws(
        &self,
        after: Self,
        before_state: StateContext<S>,
        after_state: StateContext<S>,
        region: Rect,
        node: LayoutNode,
        before: Seq<Paint>,
        after_paints: Seq<Paint>,
    ) -> bool {
        after == *self && after_state == before_state && label_painted(before, after_paints, region)
    }

    fn layout(&self, bounds: Bounds, node: &mut LayoutNode) -> (r: Size) {
        Size { width: bounds.max_width, height: clamp_u16(2, bounds.min_height, bounds.max_height) }
    }

    fn draw(&mut self, state_ctx: &mut StateContext<S>, draw_ctx: &DrawContext, canvas: &mut Canvas) {
        self.paint(draw_ctx, canvas);
    }
}

/// The bounds that a column offers a child once `used` rows are taken: any
/// width up to the column's, any height up to the rows left.
pub open spec fn column_child_bounds(b: Bounds, used: int) -> Bounds {
    Bounds { min_width: 0, max_width: b.max_width, min_height: 0, max_height: (b.max_height - used) as u16 }
}

/// The column's pass over its first `n` children: rows used, widest child,
/// and the placement of each child. Each child is offered the rows left,
/// its reported size is forced into what it was offered, and it is placed
/// below the previous one.
pub open spec fn column_pass<M, S, C: TmpComponent<M, S>>(children: Seq<C>, b: Bounds, n: nat) -> (int, int, Seq<Placement>)
    decreases n,
{
    if n == 0 || n > children.len() {
        (0, 0, Seq::empty())
    } else {
        let prev = column_pass::<M, S, C>(children, b, (n - 1) as nat);
        let cb = column_child_bounds(b, prev.0);
        let s = cb.constrain_spec(<C as TmpComponent<M, S>>::layout_size(&children[n - 1], cb));
        (
            prev.0 + s.height,
            if s.width > prev.1 { s.width as int } else { prev.1 },
            prev.2.push(Placement { x: 0, y: prev.0 as u16, size: s }),
        )
    }
}

/// Stacks its children from top to bottom, each below the previous one.
pub struct Column<C> {
    pub children: Vec<C>,
}

impl<C> Column<C> {
    pub fn new(children: Vec<C>) -> (r: Column<C>)
        ensures
            r.children@ == children@,
    {
        Column { children }
    }
}

impl<Message, S, C: TmpComponent<Message, S>> TmpComponent<Message, S> for Column<C> {
    /// The widest child by the rows used, forced into the bounds.
    open spec fn layout_size(&self, bounds: Bounds) -> Size {
        let p = column_pass::<Message, S, C>(self.children@, bounds, self.children@.len());
        bounds.constrain_spec(Size { width: p.1 as u16, height: p.0 as u16 })
    }

    open spec fn layout_placements(&self, bounds: Bounds) -> Seq<Placement> {
        column_pass::<Message, S, C>(self.children@, bounds, self.children@.len()).2
    }

    open spec fn records(&self, bounds: Bounds, before: LayoutNode, after: LayoutNode) -> bool {
        records_children(self.layout_placements(bounds), before, after)
    }

    open spec fn owns(&self, id: Identity) -> bool {
        exists|i: int| 0 <= i < self.children@.len() && <C as TmpComponent<Message, S>>::owns(&self.children@[i], id)
    }

    /// Draws the children in turn (see `draws_children`).
    open spec fn draws(
        &self,
        after: Self,
        before_state: StateContext<S>,
        after_state: StateContext<S>,
        region: Rect,
        node: LayoutNode,
        before: Seq<Paint>,
        after_paints: Seq<Paint>,
    ) -> bool {
        draws_children::<Message, S, C>(self.children@, after.children@, before_state, after_state, region, node, before, after_paints)
    }

    fn layout(&self, bounds: Bounds, node: &mut LayoutNode) -> (r: Size) {
        let mut used: u16 = 0;
        let mut width: u16 = 0;
        let mut placements: Vec<Placement> = Vec::new();
        let mut nodes: Vec<LayoutNode> = Vec::new();
        let mut i: usize = 0;
        while i < self.children.len()
            invariant
                i <= self.children@.len(),
                (used as int, width as int, placements@) == column_pass::<Message, S, C>(self.children@, bounds, i as nat),
                used <= bounds.max_height,
                width <= bounds.max_width,
                nodes@.len() == placements@.len(),
                forall|k: int| 0 <= k < nodes@.len() ==> #[trigger] nodes@[k].size == placements@[k].size,
            decreases self.children@.len() - i,
        {
            let cb = Bounds { min_width: 0, max_width: bounds.max_width, min_height: 0, max_height: bounds.max_height - used };
            let mut child_node = LayoutNode::new();
            let reported = TmpComponent::<Message, S>::layout(&self.children[i], cb, &mut child_node);
            let s = cb.constrain(reported);
            child_node.size = s;
            placements.push(Placement { x: 0, y: used, size: s });
            nodes.push(child_node);
            used = used + s.height;
            if s.width > width {
                width = s.width;
            }
            i = i + 1;
        }
        let r = bounds.constrain(Size { width, height: used });
        node.placements = placements;
        node.children = nodes;
        r
    }

    fn draw(&mut self, state_ctx: &mut StateContext<S>, draw_ctx: &DrawContext, canvas: &mut Canvas) {
        draw_children(&mut self.children, state_ctx, draw_ctx, canvas);
    }
}

/// `after` keeps the size of `before` and records, for each of
/// `placements`, the placement and a child node of that size.
pub open spec fn records_children(placements: Seq<Placement>, before: LayoutNode, after: LayoutNode) -> bool {
    &&& after.size == before.size
    &&& after.placements@ == placements
    &&& after.children@.len() == placements.len()
    &&& forall|i: int| 0 <= i < placements.len() ==> #[trigger] after.children@[i].size == placements[i].size
}

/// How many children a container draws: those with a placement and a node.
pub open spec fn drawn_count(n: int, node: LayoutNode) -> int {
    let p = node.placements@.len() as int;
    let c = node.children@.len() as int;
    let m = if p < n { p } else { n };
    if c < m { c } else { m }
}

/// The part of `region` that the placement of child `i` covers.
pub open spec fn child_region(region: Rect, node: LayoutNode, i: int) -> Rect {
    region.sub_region_spec(node.placements@[i].x, node.placements@[i].y, node.placements@[i].size)
}

/// `states` and `paints` run through the draws of the first `n` children:
/// child `i` draws from the `i`th state and paints to the next, in its own
/// region and with its own node.
pub open spec fn child_chain<M, S, C: TmpComponent<M, S>>(
    before: Seq<C>,
    after: Seq<C>,
    states: Seq<StateContext<S>>,
    paints: Seq<Seq<Paint>>,
    region: Rect,
    node: LayoutNode,
    n: int,
) -> bool {
    &&& states.len() == n + 1
    &&& paints.len() == n + 1
    &&& forall|i: int| 0 <= i < n ==> #[trigger] <C as TmpComponent<M, S>>::draws(
        &before[i],
        after[i],
        states[i],
        states[i + 1],
        child_region(region, node, i),
        node.children@[i],
        paints[i],
        paints[i + 1],
    )
}

/// The children `before` become `after` by drawing, in order, each child
/// that has a placement and a node in `node`, in the part of `region` that
/// its placement covers; the other children stay as they are.
pub open spec fn draws_children<M, S, C: TmpComponent<M, S>>(
    before: Seq<C>,
    after: Seq<C>,
    before_state: StateContext<S>,
    after_state: StateContext<S>,
    region: Rect,
    node: LayoutNode,
    before_paints: Seq<Paint>,
    after_paints: Seq<Paint>,
) -> bool {
    let n = drawn_count(before.len() as int, node);
    &&& after.len() == before.len()
    &&& forall|j: int| n <= j < before.len() ==> #[trigger] after[j] == before[j]
    &&& exists|states: Seq<StateContext<S>>, paints: Seq<Seq<Paint>>|
        #[trigger] child_chain::<M, S, C>(before, after, states, paints, region, node, n)
            && states[0] == before_state && states[n] == after_state
            && paints[0] == before_paints && paints[n] == after_paints
}

/// Draws each child that has a placement and a node in `draw_ctx.node`, in
/// the part of the region that its placement covers.
pub fn draw_children<Message, S, C: TmpComponent<Message, S>>(
    children: &mut Vec<C>,
    state_ctx: &mut StateContext<S>,
    draw_ctx: &DrawContext,
    canvas: &mut Canvas,
)
    requires
        old(state_ctx).store().wf(),
        draw_ctx.region.wf(),
    ensures
        draws_children::<Message, S, C>(
            old(children)@,
            final(children)@,
            *old(state_ctx),
            *final(state_ctx),
            draw_ctx.region,
            *draw_ctx.node,
            old(canvas)@,
            final(canvas)@,
        ),
        writes_only(
            *old(state_ctx),
            *final(state_ctx),
            |k: Identity|
                exists|i: int| 0 <= i < old(children)@.len() && <C as TmpComponent<Message, S>>::owns(&old(children)@[i], k),
        ),
        painted_within(old(canvas)@, final(canvas)@, draw_ctx.region),
        draw_ctx.region.is_empty_spec() ==> final(canvas)@ == old(canvas)@,
{
    let mut n: usize = children.len();
    if draw_ctx.node.placements.len() < n {
        n = draw_ctx.node.placements.len();
    }
    if draw_ctx.node.children.len() < n {
        n = draw_ctx.node.children.len();
    }
    let ghost owned = |k: Identity|
        exists|i: int| 0 <= i < old(children)@.len() && <C as TmpComponent<Message, S>>::owns(&old(children)@[i], k);
    let ghost mut states: Seq<StateContext<S>> = seq![*state_ctx];
    let ghost mut paints: Seq<Seq<Paint>> = seq![canvas@];
    proof {
        lemma_painted_nothing(canvas@, draw_ctx.region);
    }
    let mut i: usize = 0;
    while i < n
        invariant
            n == drawn_count(old(children)@.len() as int, *draw_ctx.node),
            n <= children@.len(),
            n <= draw_ctx.node.placements@.len(),
            n <= draw_ctx.node.children@.len(),
            draw_ctx.region.wf(),
            i <= n,
            children@.len() == old(children)@.len(),
            forall|j: int| i <= j < children@.len() ==> children@[j] == old(children)@[j],
            owned == (|k: Identity|
                exists|i: int| 0 <= i < old(children)@.len() && <C as TmpComponent<Message, S>>::owns(&old(children)@[i], k)),
            writes_only(*old(state_ctx), *state_ctx, owned),
            painted_within(old(canvas)@, canvas@, draw_ctx.region),
            draw_ctx.region.is_empty_spec() ==> canvas@ == old(canvas)@,
            child_chain::<Message, S, C>(old(children)@, children@, states, paints, draw_ctx.region, *draw_ctx.node, i as int),
            states[0] == *old(state_ctx),
            states[i as int] == *state_ctx,
            paints[0] == old(canvas)@,
            paints[i as int] == canvas@,
        decreases n - i,
    {
        let child_ctx = draw_ctx.child(i);
        let ghost sc0 = *state_ctx;
        let ghost cv0 = canvas@;
        let ghost child0 = children@[i as int];
        let ghost kids0 = children@;
        TmpComponent::<Message, S>::draw(&mut children[i], state_ctx, &child_ctx, canvas);
        proof {
            assert forall|k: Identity| #[trigger] <C as TmpComponent<Message, S>>::owns(&child0, k) implies owned(k) by {
                assert(old(children)@[i as int] == child0);
            }
            lemma_writes_only_trans(*old(state_ctx), sc0, *state_ctx, owned, |k: Identity| <C as TmpComponent<Message, S>>::owns(&child0, k));
            lemma_painted_within_trans(old(canvas)@, cv0, canvas@, child_ctx.region, draw_ctx.region);
            let ghost states1 = states.push(*state_ctx);
            let ghost paints1 = paints.push(canvas@);
            assert forall|k: int| 0 <= k < i + 1 implies #[trigger] <C as TmpComponent<Message, S>>::draws(
                &old(children)@[k],
                children@[k],
                states1[k],
                states1[k + 1],
                child_region(draw_ctx.region, *draw_ctx.node, k),
                draw_ctx.node.children@[k],
                paints1[k],
                paints1[k + 1],
            ) by {
                if k < i {
                    assert(children@[k] == kids0[k]);
                    assert(states1[k] == states[k] && states1[k + 1] == states[k + 1]);
                    assert(paints1[k] == paints[k] && paints1[k + 1] == paints[k + 1]);
                } else {
                    assert(old(children)@[k] == child0);
                }
            }
            states = states1;
            paints = paints1;
        }
        i = i + 1;
    }
    proof {
        assert(child_chain::<Message, S, C>(old(children)@, children@, states, paints, draw_ctx.region, *draw_ctx.node, n as int));
    }
}

/// The weight of child `i`: none past the end of `weights`.
pub open spec fn weight_at(weights: Seq<u16>, i: int) -> u16 {
    if 0 <= i < weights.len() {
        weights[i]
    } else {
        0
    }
}

/// The bounds under which a weighted column measures its children: any
/// size up to its own maximum.
pub open spec fn measure_bounds(b: Bounds) -> Bounds {
    Bounds { min_width: 0, max_width: b.max_width, min_height: 0, max_height: b.max_height }
}

/// The height each child asks for when measured.
pub open spec fn flex_mins<M, S, C: TmpComponent<M, S>>(children: Seq<C>, b: Bounds) -> Seq<u16> {
    Seq::new(children.len(), |i: int| <C as TmpComponent<M, S>>::layout_size(&children[i], measure_bounds(b)).height)
}

/// The weight of each child.
pub open spec fn flex_weights(n: nat, weights: Seq<u16>) -> Seq<u16> {
    Seq::new(n, |i: int| weight_at(weights, i))
}

/// The rows that child `i` may take: its share of the column's height.
pub open spec fn flex_cap<M, S, C: TmpComponent<M, S>>(children: Seq<C>, weights: Seq<u16>, b: Bounds, i: int) -> int {
    share(b.max_height as int, flex_mins::<M, S, C>(children, b), flex_weights(children.len(), weights), i)
}

/// The weighted column's pass over its first `n` children, as for a plain
/// column, but each child is offered no more rows than its share.
pub open spec fn flex_pass<M, S, C: TmpComponent<M, S>>(children: Seq<C>, weights: Seq<u16>, b: Bounds, n: nat) -> (int, int, Seq<Placement>)
    decreases n,
{
    if n == 0 || n > children.len() {
        (0, 0, Seq::empty())
    } else {
        let prev = flex_pass::<M, S, C>(children, weights, b, (n - 1) as nat);
        let left = b.max_height - prev.0;
        let cap = flex_cap::<M, S, C>(children, weights, b, n - 1);
        let cb = Bounds { min_width: 0, max_width: b.max_width, min_height: 0, max_height: (if cap < left { cap } else { left }) as u16 };
        let s = cb.constrain_spec(<C as TmpComponent<M, S>>::layout_size(&children[n - 1], cb));
        (
            prev.0 + s.height,
            if s.width > prev.1 { s.width as int } else { prev.1 },
            prev.2.push(Placement { x: 0, y: prev.0 as u16, size: s }),
        )
    }
}

/// A column whose children share its height by weight when their requests
/// do not all fit: each child is measured first; unweighted children get
/// the rows they asked for, in order, while rows last; weighted children
/// split what remains in proportion to their weights.
pub struct FlexColumn<C> {
    pub children: Vec<C>,
    /// The weight of each child; zero, or no entry, means no weight.
    pub weights: Vec<u16>,
}

impl<C> FlexColumn<C> {
    pub fn new(children: Vec<C>, weights: Vec<u16>) -> (r: FlexColumn<C>)
        ensures
            r.children@ == children@,
            r.weights@ == weights@,
    {
        FlexColumn { children, weights }
    }
}

impl<Message, S, C: TmpComponent<Message, S>> TmpComponent<Message, S> for FlexColumn<C> {
    /// The widest child by the rows used, forced into the bounds.
    open spec fn layout_size(&self, bounds: Bounds) -> Size {
        let p = flex_pass::<Message, S, C>(self.children@, self.weights@, bounds, self.children@.len());
        bounds.constrain_spec(Size { width: p.1 as u16, height: p.0 as u16 })
    }

    open spec fn layout_placements(&self, bounds: Bounds) -> Seq<Placement> {
        flex_pass::<Message, S, C>(self.children@, self.weights@, bounds, self.children@.len()).2
    }

    open spec fn records(&self, bounds: Bounds, before: LayoutNode, after: LayoutNode) -> bool {
        records_children(self.layout_placements(bounds), before, after)
    }

    open spec fn owns(&self, id: Identity) -> bool {
        exists|i: int| 0 <= i < self.children@.len() && <C as TmpComponent<Message, S>>::owns(&self.children@[i], id)
    }

    /// Draws the children in turn (see `draws_children`).
    open spec fn draws(
        &self,
        after: Self,
        before_state: StateContext<S>,
        after_state: StateContext<S>,
        region: Rect,
        node: LayoutNode,
        before: Seq<Paint>,
        after_paints: Seq<Paint>,
    ) -> bool {
        after.weights@ == self.weights@ && draws_children::<Message, S, C>(self.children@, after.children@, before_state, after_state, region, node, before, after_paints)
    }

    fn layout(&self, bounds: Bounds, node: &mut LayoutNode) -> (r: Size) {
        let n = self.children.len();
        let mb = Bounds { min_width: 0, max_width: bounds.max_width, min_height: 0, max_height: bounds.max_height };
        let mut mins: Vec<u16> = Vec::new();
        let mut ws: Vec<u16> = Vec::new();
        let mut i: usize = 0;
        while i < n
            invariant
                n == self.children@.len(),
                mb == measure_bounds(bounds),
                i <= n,
                mins@.len() == i,
                ws@.len() == i,
                forall|k: int| 0 <= k < i ==> #[trigger] mins@[k] == <C as TmpComponent<Message, S>>::layout_size(&self.children@[k], mb).height,
                forall|k: int| 0 <= k < i ==> #[trigger] ws@[k] == weight_at(self.weights@, k),
            decreases n - i,
        {
            let mut scratch = LayoutNode::new();
            let measured = TmpComponent::<Message, S>::layout(&self.children[i], mb, &mut scratch);
            mins.push(measured.height);
            ws.push(if i < self.weights.len() { self.weights[i] } else { 0 });
            i = i + 1;
        }
        proof {
            assert(mins@ =~= flex_mins::<Message, S, C>(self.children@, bounds));
            assert(ws@ =~= flex_weights(self.children@.len(), self.weights@));
        }
        let shares = distribute(bounds.max_height, &mins, &ws);
        let mut used: u16 = 0;
        let mut width: u16 = 0;
        let mut placements: Vec<Placement> = Vec::new();
        let mut nodes: Vec<LayoutNode> = Vec::new();
        let mut j: usize = 0;
        while j < n
            invariant
                n == self.children@.len(),
                shares@.len() == n,
                forall|k: int| 0 <= k < n ==> #[trigger] shares@[k] == flex_cap::<Message, S, C>(self.children@, self.weights@, bounds, k),
                j <= n,
                (used as int, width as int, placements@) == flex_pass::<Message, S, C>(self.children@, self.weights@, bounds, j as nat),
                used <= bounds.max_height,
                width <= bounds.max_width,
                nodes@.len() == placements@.len(),
                forall|k: int| 0 <= k < nodes@.len() ==> #[trigger] nodes@[k].size == placements@[k].size,
            decreases n - j,
        {
            let left = bounds.max_height - used;
            let cap = if shares[j] < left { shares[j] } else { left };
            let cb = Bounds { min_width: 0, max_width: bounds.max_width, min_height: 0, max_height: cap };
            let mut child_node = LayoutNode::new();
            let reported = TmpComponent::<Message, S>::layout(&self.children[j], cb, &mut child_node);
            let s = cb.constrain(reported);
            child_node.size = s;
            placements.push(Placement { x: 0, y: used, size: s });
            nodes.push(child_node);
            used = used + s.height;
            if s.width > width {
                width = s.width;
            }
            j = j + 1;
        }
        let r = bounds.constrain(Size { width, height: used });
        node.placements = placements;
        node.children = nodes;
        r
    }

    fn draw(&mut self, state_ctx: &mut StateContext<S>, draw_ctx: &DrawContext, canvas: &mut Canvas) {
        draw_children(&mut self.children, state_ctx, draw_ctx, canvas);
    }
}

/// A stateful leaf that counts its draws. Its state, the count, lives in
/// the store; each draw shows the stored count and stores its successor.
pub struct Counter {
    pub handle: StateHandle,
    /// The count shown by the latest draw.
    pub shown: u64,
}

impl<Message> TmpComponent<Message, u64> for Counter {
    /// One row of the full offered width, forced into the bounds.
    open spec fn layout_size(&self, bounds: Bounds) -> Size {
        bounds.constrain_spec(Size { width: bounds.max_width, height: 1 })
    }

    open spec fn layout_placements(&self, bounds: Bounds) -> Seq<Placement> {
        Seq::empty()
    }

    open spec fn records(&self, bounds: Bounds, before: LayoutNode, after: LayoutNode) -> bool {
        after == before
    }

    open spec fn owns(&self, id: Identity) -> bool {
        id == self.handle.id
    }

    /// Ticks (see `Counter::tick`) and paints nothing.
    open spec fn draws(
        &self,
        after: Self,
        before_state: StateContext<u64>,
        after_state: StateContext<u64>,
        region: Rect,
        node: LayoutNode,
        before: Seq<Paint>,
        after_paints: Seq<Paint>,
    ) -> bool {
        ticks(*self, after, before_state, after_state) && after_paints == before
    }

    fn layout(&self, bounds: Bounds, node: &mut LayoutNode) -> (r: Size) {
        bounds.constrain(Size { width: bounds.max_width, height: 1 })
    }

    fn draw(&mut self, state_ctx: &mut StateContext<u64>, draw_ctx: &DrawContext, canvas: &mut Canvas) {
        self.tick(state_ctx);
        proof {
            lemma_painted_nothing(canvas@, draw_ctx.region);
        }
    }
}

/// One tick of counter `before`, which becomes `after`: where its handle is
/// current and live, it shows the stored count and stores its successor
/// (wrapping), leaving every other state as it is; otherwise nothing changes.
pub open spec fn ticks(before: Counter, after: Counter, s0: StateContext<u64>, s1: StateContext<u64>) -> bool {
    let h = before.handle;
    &&& after.handle == h
    &&& if h.frame == s0.store().frame_spec() && s0@.contains_key(h.id) {
        &&& after.shown == s0@[h.id].value
        &&& s1@ == s0@.insert(h.id, with_value(s0@[h.id], s0@[h.id].value.wrapping_add(1)))
        &&& s1.store().wf()
        &&& s1.store().frame_spec() == s0.store().frame_spec()
        &&& s1.store().issued() == s0.store().issued()
    } else {
        &&& after.shown == before.shown
        &&& s1 == s0
    }
}

impl Counter {
    /// Resolves the count of `id` for this frame, starting from zero for an
    /// identity without state, and makes the counter; fails where `id` was
    /// already built in this frame.
    pub fn create(ctx: &mut BuildContext<u64>, id: Identity) -> (r: Result<Counter, BuildError>)
        requires
            old(ctx).store().wf(),
        ensures
            final(ctx).store().wf(),
            final(ctx).store().frame_spec() == old(ctx).store().frame_spec(),
            final(ctx)@ == after_build(old(ctx)@, id, 0u64, old(ctx).store().issued()),
            final(ctx).store().issued() == issued_after_build(old(ctx)@, id, old(ctx).store().issued()),
            r.is_err() <==> old(ctx)@.contains_key(id) && old(ctx)@[id].built,
            r.is_err() ==> r == Err::<Counter, BuildError>(BuildError::IdentityCollision(id)),
            r.is_ok() ==> r.unwrap().handle == (StateHandle { id, frame: old(ctx).store().frame_spec() })
                && r.unwrap().shown == 0,
    {
        match ctx.state(id, 0) {
            Ok(handle) => Ok(Counter { handle, shown: 0 }),
            Err(e) => Err(e),
        }
    }

    /// Shows the stored count and stores its successor (wrapping), where the
    /// handle is current; otherwise changes nothing.
    pub fn tick(&mut self, state_ctx: &mut StateContext<u64>)
        requires
            old(state_ctx).store().wf(),
        ensures
            ticks(*old(self), *final(self), *old(state_ctx), *final(state_ctx)),
            writes_only(*old(state_ctx), *final(state_ctx), |k: Identity| k == old(self).handle.id),
    {
        let v: u64 = match state_ctx.get(self.handle) {
            Some(v) => *v,
            None => {
                return;
            },
        };
        self.shown = v;
        state_ctx.set(self.handle, v.wrapping_add(1));
        proof {
            assert(state_ctx@.dom() =~= old(state_ctx)@.dom());
        }
        assert(state_ctx@ == old(state_ctx)@.insert(self.handle.id, with_value(old(state_ctx)@[self.handle.id], v.wrapping_add(1))));
    }
}

impl<Message> StatefulComponent<Message, u64> for Counter {
    /// The identity to keep the count under.
    type Properties = Identity;

    open spec fn identity_of(props: Identity) -> Identity {
        props
    }

    open spec fn initial_state(props: Identity) -> u64 {
        0
    }

    /// A counter over `h` that has shown nothing yet.
    open spec fn made(c: Counter, props: Identity, h: StateHandle) -> bool {
        c.handle == h && c.shown == 0
    }

    fn build(ctx: &mut BuildContext<u64>, props: Identity) -> (r: Result<Counter, BuildError>) {
        Counter::create(ctx, props)
    }
}

} // verus!
