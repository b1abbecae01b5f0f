use tuine::component::{StatefulComponent, TmpComponent};
use tuine::context::{BuildContext, DrawContext};
use tuine::canvas::Canvas;
use tuine::geometry::Rect;
use tuine::layout::LayoutNode;
use tuine::state::{BuildError, Identity, StateStore};
use tuine::widget::Counter;

fn id(path: u64, tag: u64) -> Identity {
    Identity { path, tag }
}

#[test]
fn new_state_holds_initial_value() {
    let mut ctx = BuildContext::begin(StateStore::<u32>::new());
    let h = ctx.state(id(1, 0), 7).unwrap();
    let sc = ctx.finish();
    assert_eq!(sc.get(h), Some(&7));
    let store = sc.finish();
    assert_eq!(store.frame(), 1);
    assert_eq!(store.len(), 1);
}

#[test]
fn live_state_ignores_new_initial_value() {
    let mut ctx = BuildContext::begin(StateStore::<u32>::new());
    let h = ctx.state(id(1, 0), 7).unwrap();
    let mut sc = ctx.finish();
    assert!(sc.set(h, 8));
    let mut ctx = BuildContext::begin(sc.finish());
    let h2 = ctx.state(id(1, 0), 100).unwrap();
    let sc = ctx.finish();
    assert_eq!(sc.get(h2), Some(&8));
}

#[test]
fn identity_collision_is_an_error() {
    let mut ctx = BuildContext::begin(StateStore::<u32>::new());
    assert!(ctx.state(id(3, 1), 0).is_ok());
    assert!(ctx.state(id(3, 2), 0).is_ok());
    assert_eq!(ctx.state(id(3, 1), 5), Err(BuildError::IdentityCollision(id(3, 1))));
}

#[test]
fn stale_handle_finds_nothing() {
    let mut ctx = BuildContext::begin(StateStore::<u32>::new());
    let h = ctx.state(id(1, 0), 7).unwrap();
    let sc = ctx.finish();
    let mut ctx = BuildContext::begin(sc.finish());
    let _ = ctx.state(id(1, 0), 7).unwrap();
    let mut sc = ctx.finish();
    assert_eq!(sc.get(h), None);
    assert!(!sc.set(h, 1));
}

#[test]
fn unbuilt_state_is_reclaimed() {
    let mut ctx = BuildContext::begin(StateStore::<u32>::new());
    let _ = ctx.state(id(1, 0), 1).unwrap();
    let _ = ctx.state(id(2, 0), 2).unwrap();
    let store = ctx.finish().finish();
    assert_eq!(store.len(), 2);
    let mut ctx = BuildContext::begin(store);
    let _ = ctx.state(id(2, 0), 2).unwrap();
    let store = ctx.finish().finish();
    assert!(!store.contains(id(1, 0)));
    assert!(store.contains(id(2, 0)));
    let mut store = store;
    for _ in 0..5 {
        let ctx = BuildContext::begin(store);
        store = ctx.finish().finish();
        assert!(!store.contains(id(1, 0)));
    }
    assert_eq!(store.len(), 0);
}

fn counter_frame(store: StateStore<u64>, ident: Identity) -> (StateStore<u64>, u64) {
    let mut ctx = BuildContext::begin(store);
    let mut c = <Counter as StatefulComponent<(), u64>>::build(&mut ctx, ident).unwrap();
    let mut sc = ctx.finish();
    let mut node = LayoutNode::new();
    let size = TmpComponent::<(), u64>::layout(&c, tuine::geometry::Bounds::new(0, 10, 0, 3), &mut node);
    let dctx = DrawContext { region: Rect::new(0, 0, size.width, size.height), node: &node };
    let mut canvas = Canvas::new();
    TmpComponent::<(), u64>::draw(&mut c, &mut sc, &dctx, &mut canvas);
    (sc.finish(), c.shown)
}

#[test]
fn counter_keeps_count_across_frames() {
    let store = StateStore::new();
    let (store, first) = counter_frame(store, id(4, 0));
    let (store, second) = counter_frame(store, id(4, 0));
    let (_, third) = counter_frame(store, id(4, 0));
    assert_eq!(first, 0);
    assert_eq!(second, 1);
    assert_eq!(third, 2);
}

#[test]
fn reinserted_identity_gets_fresh_state() {
    let store = StateStore::new();
    let (store, _) = counter_frame(store, id(5, 0));
    let (store, shown) = counter_frame(store, id(5, 0));
    assert_eq!(shown, 1);
    let store = BuildContext::begin(store).finish().finish();
    assert!(!store.contains(id(5, 0)));
    let (_, shown) = counter_frame(store, id(5, 0));
    assert_eq!(shown, 0);
}

#[test]
fn counter_layout_is_one_row() {
    let mut ctx = BuildContext::begin(StateStore::<u64>::new());
    let c = <Counter as StatefulComponent<(), u64>>::build(&mut ctx, id(1, 1)).unwrap();
    let mut node = LayoutNode::new();
    let s = TmpComponent::<(), u64>::layout(&c, tuine::geometry::Bounds::new(0, 12, 0, 5), &mut node);
    assert_eq!(s, tuine::geometry::Size::new(12, 1));
}

#[test]
fn counter_build_collides_on_same_identity() {
    let mut ctx = BuildContext::begin(StateStore::<u64>::new());
    assert!(<Counter as StatefulComponent<(), u64>>::build(&mut ctx, id(1, 1)).is_ok());
    let again = <Counter as StatefulComponent<(), u64>>::build(&mut ctx, id(1, 1));
    assert!(matches!(again, Err(BuildError::IdentityCollision(i)) if i == id(1, 1)));
}
