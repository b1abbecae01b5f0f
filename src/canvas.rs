//! The draw target: a list of paint primitives, each bound to a screen
//! region, that a rendering backend carries out in order.
use vstd::prelude::*;
use crate::geometry::Rect;

verus! {

/// One paint primitive: a block of text shown in a region.
#[derive(Debug, PartialEq, Eq)]
pub struct Paint {
    pub region: Rect,
    pub text: String,
}

/// `after` is `before` followed by paints that each cover a non-empty part
/// of `region`.
pub open spec fn painted_within(before: Seq<Paint>, after: Seq<Paint>, region: Rect) -> bool {
    &&& before.len() <= after.len()
    &&& after.subrange(0, before.len() as int) == before
    &&& forall|i: int|
        before.len() <= i < after.len() ==> (#[trigger] after[i]).region.inside(region) && !after[i].region.is_empty_spec()
}

/// The paints issued during one draw pass, in order.
pub struct Canvas {
    paints: Vec<Paint>,
}

impl View for Canvas {
    type V = Seq<Paint>;

    closed spec fn view(&self) -> Seq<Paint> {
        self.paints@
    }
}

impl Canvas {
    pub fn new() -> (r: Canvas)
        ensures
            r@ == Seq::<Paint>::empty(),
    {
        Canvas { paints: Vec::new() }
    }

    /// Paints `text` into `region`; a region with no cell is skipped.
    pub fn paint(&mut self, region: Rect, text: String) -> (r: bool)
        ensures
            r == !region.is_empty_spec(),
            r ==> final(self)@ == old(self)@.push(Paint { region, text }),
            !r ==> final(self)@ == old(self)@,
    {
        if region.is_empty() {
            false
        } else {
            self.paints.push(Paint { region, text });
            true
        }
    }

    /// The paints issued so far.
    pub fn paints(&self) -> (r: &Vec<Paint>)
        ensures
            r@ == self@,
    {
        &self.paints
    }

    /// Hands the paints to the backend.
    pub fn into_paints(self) -> (r: Vec<Paint>)
        ensures
            r@ == self@,
    {
        self.paints
    }
}

/// Painting nothing is painting within any region.
pub proof fn lemma_painted_nothing(c: Seq<Paint>, region: Rect)
    ensures
        painted_within(c, c, region),
{
    assert(c.subrange(0, c.len() as int) =~= c);
}

/// Painting within a sub-region is painting within any region around it,
/// and two steps of painting within a region make one.
pub proof fn lemma_painted_within_trans(a: Seq<Paint>, b: Seq<Paint>, c: Seq<Paint>, inner: Rect, region: Rect)
    requires
        painted_within(a, b, region),
        painted_within(b, c, inner),
        inner.inside(region),
    ensures
        painted_within(a, c, region),
{
    assert forall|i: int| a.len() <= i < c.len() implies (#[trigger] c[i]).region.inside(region) && !c[i].region.is_empty_spec() by {
        if i < b.len() {
            assert(c.subrange(0, b.len() as int)[i] == c[i]);
            assert(b[i] == c[i]);
            assert(b[i].region.inside(region) && !b[i].region.is_empty_spec());
        } else {
            assert(c[i].region.inside(inner) && !c[i].region.is_empty_spec());
        }
    }
    assert(c.subrange(0, a.len() as int) =~= b.subrange(0, a.len() as int)) by {
        assert forall|i: int| 0 <= i < a.len() implies c.subrange(0, a.len() as int)[i] == b.subrange(0, a.len() as int)[i] by {
            assert(c.subrange(0, b.len() as int)[i] == c[i]);
        }
    }
}

} // verus!
