use kayak_core::diff::{diff_children, dirty_scope, ChildOp, ChildRef, DirtyScope};
use kayak_core::events::{dispatch, hit_test, EventKind, UiState};
use kayak_core::extract::{
    extract_svg, extract_texts, FontBook, FontData, Glyph, PrimShape, Primitive,
};
use kayak_core::geom::{Point, Rect};
use kayak_core::layout::{distribute_stretch, layout_children, place_children};
use kayak_core::store::{NodeStore, UiError};
use kayak_core::style::{Color, Style, Unit};
use kayak_core::widget::{Fragment, WidgetKind};
use kayak_core::extract::extract_node;

fn child(id: usize, key: Option<u64>, kind: WidgetKind) -> ChildRef {
    ChildRef {
        id,
        key,
        kind,
        style: Style::plain(),
    }
}

fn sum(v: &Vec<u32>) -> u64 {
    let mut s: u64 = 0;
    for x in v {
        s += *x as u64;
    }
    s
}

#[test]
fn stretch_two_children_remainder_to_last() {
    // Root with two stretch children of weight 1 over width 101:
    // the first gets 50, the last absorbs the remainder pixel.
    let shares = distribute_stretch(101, &vec![1, 1]);
    assert_eq!(shares, vec![50, 51]);
}

#[test]
fn stretch_sums_exactly_to_available() {
    let cases: Vec<(u32, Vec<u32>)> = vec![
        (101, vec![1, 1]),
        (100, vec![1, 2, 3]),
        (7, vec![2, 0, 5]),
        (1, vec![3, 3, 3]),
        (0, vec![1, 2]),
        (997, vec![10, 1, 1, 1, 7]),
    ];
    for (avail, weights) in cases {
        let shares = distribute_stretch(avail, &weights);
        assert_eq!(shares.len(), weights.len());
        assert_eq!(sum(&shares), avail as u64, "weights {:?}", weights);
    }
}

#[test]
fn stretch_zero_weights_get_zero() {
    let shares = distribute_stretch(80, &vec![0, 1, 0]);
    assert_eq!(shares, vec![0, 80, 0]);
    // All-zero weights: nothing to distribute, and nothing negative.
    let none = distribute_stretch(80, &vec![0, 0]);
    assert_eq!(none, vec![0, 0]);
}

#[test]
fn layout_children_two_pass() {
    // Fixed 30 px, then two stretch siblings over what is left of 101:
    // remaining 71 splits 35 + 36, remainder to the last.
    let units = vec![Unit::Px(30), Unit::Stretch(1), Unit::Stretch(1)];
    let sizes = layout_children(&units, 101);
    assert_eq!(sizes, vec![30, 35, 36]);

    let units = vec![Unit::Percent(50), Unit::Stretch(1)];
    let sizes = layout_children(&units, 200);
    assert_eq!(sizes, vec![100, 100]);
}

#[test]
fn place_children_offsets() {
    let sizes = vec![10, 20, 5];
    let margins = vec![2, 0, 3];
    let offs = place_children(&sizes, &margins);
    // child 0 at its margin; child 1 after child 0 and both margins;
    // child 2 after child 1 plus its own margin.
    assert_eq!(offs, vec![2, 14, 37]);
}

fn keyed(id: usize, k: u64) -> ChildRef {
    child(id, Some(k), WidgetKind::Container)
}

#[test]
fn identical_children_empty_plan() {
    // Declaring the identical child list twice produces an empty plan.
    let prev = vec![keyed(1, 10), keyed(2, 20), child(3, None, WidgetKind::Button)];
    let next = vec![keyed(0, 10), keyed(0, 20), child(0, None, WidgetKind::Button)];
    let ops = diff_children(&prev, &next);
    assert!(ops.is_empty(), "expected empty plan, got {:?}", ops);
}

#[test]
fn keyed_permutation_reorders_only() {
    // [A, B, C] redeclared as [C, A, B]: reorder operations only,
    // zero inserts and zero removes.
    let prev = vec![keyed(1, 1), keyed(2, 2), keyed(3, 3)];
    let next = vec![keyed(0, 3), keyed(0, 1), keyed(0, 2)];
    let ops = diff_children(&prev, &next);
    assert_eq!(ops.len(), 3);
    for op in &ops {
        assert!(matches!(op, ChildOp::Reorder { .. }), "unexpected op {:?}", op);
    }
    assert_eq!(
        ops,
        vec![
            ChildOp::Reorder { prev_idx: 2, new_pos: 0 },
            ChildOp::Reorder { prev_idx: 0, new_pos: 1 },
            ChildOp::Reorder { prev_idx: 1, new_pos: 2 },
        ]
    );
}

#[test]
fn keyed_match_preserves_identity() {
    // A keyed child that moved and restyled is updated, never removed.
    let mut moved = keyed(7, 42);
    moved.style.padding = 9;
    let prev = vec![keyed(5, 1), moved];
    let next = vec![keyed(0, 42), keyed(0, 1)];
    let ops = diff_children(&prev, &next);
    for op in &ops {
        match op {
            ChildOp::Remove { prev_idx } => assert_ne!(*prev_idx, 1),
            ChildOp::Replace { prev_idx, .. } => assert_ne!(*prev_idx, 1),
            _ => {}
        }
    }
    // The keyed pair at new position 0 became an update in place.
    assert!(ops
        .iter()
        .any(|op| matches!(op, ChildOp::Update { prev_idx: 1, new_pos: 0 })));
}

#[test]
fn kind_mismatch_forces_replace() {
    let prev = vec![child(4, Some(9), WidgetKind::Container)];
    let next = vec![child(0, Some(9), WidgetKind::Image { handle: 3 })];
    let ops = diff_children(&prev, &next);
    assert_eq!(ops, vec![ChildOp::Replace { prev_idx: 0, new_pos: 0 }]);
}

#[test]
fn unmatched_children_insert_and_remove() {
    let prev = vec![keyed(1, 1), keyed(2, 2)];
    let next = vec![keyed(0, 2), keyed(0, 3)];
    let ops = diff_children(&prev, &next);
    assert_eq!(
        ops,
        vec![
            ChildOp::Reorder { prev_idx: 1, new_pos: 0 },
            ChildOp::Insert { new_pos: 1 },
            ChildOp::Remove { prev_idx: 0 },
        ]
    );
}

#[test]
fn store_insert_get_remove() {
    let mut store = NodeStore::new();
    let root = store
        .insert(None, WidgetKind::Container, Style::plain(), None)
        .unwrap();
    let a = store
        .insert(Some(root), WidgetKind::Button, Style::plain(), Some(1))
        .unwrap();
    let b = store
        .insert(Some(a), WidgetKind::Fragment, Style::plain(), None)
        .unwrap();
    assert_eq!(root, 0);
    assert_eq!(a, 1);
    assert_eq!(b, 2);
    assert!(store.get(a).is_ok());

    // Removal cascades to every descendant, the rest keeps its index.
    store.remove(a).unwrap();
    assert!(matches!(store.get(a), Err(UiError::NotFound)));
    assert!(matches!(store.get(b), Err(UiError::NotFound)));
    assert!(store.get(root).is_ok());
}

#[test]
fn stale_index_not_found() {
    let mut store = NodeStore::new();
    assert!(matches!(store.get(0), Err(UiError::NotFound)));
    let r = store.insert(Some(17), WidgetKind::Container, Style::plain(), None);
    assert_eq!(r.unwrap_err(), UiError::NotFound);
}

fn pointer_style(z: Option<i32>) -> Style {
    let mut s = Style::plain();
    s.pointer_events = true;
    if let Some(z) = z {
        s.has_z = true;
        s.z_value = z;
    }
    s
}

#[test]
fn higher_z_receives_event_then_bubbles() {
    // Two overlapping nodes at (10, 10): the child with the higher
    // z-index receives the event; unconsumed, it bubbles to the parent.
    let mut store = NodeStore::new();
    let root = store
        .insert(None, WidgetKind::Container, pointer_style(None), None)
        .unwrap();
    let low = store
        .insert(Some(root), WidgetKind::Button, pointer_style(Some(1)), None)
        .unwrap();
    let high = store
        .insert(Some(root), WidgetKind::Button, pointer_style(Some(5)), None)
        .unwrap();
    let full = Some(Rect { x: 0, y: 0, w: 100, h: 100 });
    let layouts = vec![full, full, full];
    let p = Point { x: 10, y: 10 };

    let target = hit_test(&store, &layouts, &p, EventKind::PointerDown);
    assert_eq!(target, Some(high));
    let path = dispatch(&store, &layouts, &p, EventKind::PointerDown);
    assert_eq!(path, vec![high, root]);
    let _ = low;
}

#[test]
fn pointer_miss_dispatches_nowhere() {
    let mut store = NodeStore::new();
    store
        .insert(None, WidgetKind::Container, pointer_style(None), None)
        .unwrap();
    let layouts = vec![Some(Rect { x: 0, y: 0, w: 5, h: 5 })];
    let p = Point { x: 50, y: 50 };
    let path = dispatch(&store, &layouts, &p, EventKind::PointerDown);
    assert!(path.is_empty());
}

#[test]
fn focus_cleared_when_node_removed() {
    let mut store = NodeStore::new();
    let root = store
        .insert(None, WidgetKind::Container, Style::plain(), None)
        .unwrap();
    let btn = store
        .insert(Some(root), WidgetKind::Button, Style::plain(), None)
        .unwrap();
    let mut state = UiState::new();
    state.set_focus(&store, btn).unwrap();
    assert_eq!(state.focus, Some(btn));

    store.remove(btn).unwrap();
    state.clear_lost_focus(&store);
    assert_eq!(state.focus, None);
}

fn simple_font() -> FontData {
    FontData {
        id: 7,
        glyphs: vec![
            Glyph { code: 65, advance: 10, width: 8, height: 12 },
            Glyph { code: 66, advance: 11, width: 9, height: 12 },
        ],
    }
}

const WHITE: Color = Color { r: 255, g: 255, b: 255, a: 255 };

#[test]
fn unloaded_font_yields_zero_primitives() {
    // A text node whose font handle is not loaded extracts to nothing,
    // with no error raised.
    let book = FontBook { fonts: vec![] };
    let layout = Rect { x: 0, y: 0, w: 100, h: 20 };
    let font = book.lookup(7);
    assert!(font.is_none());
    let prims = extract_texts(0, &layout, font, 16, &vec![65, 66], WHITE, 0);
    assert!(prims.is_empty());
}

#[test]
fn text_expands_one_primitive_per_glyph() {
    let book = FontBook { fonts: vec![simple_font()] };
    let layout = Rect { x: 5, y: 3, w: 100, h: 40 };
    let font = book.lookup(7);
    assert!(font.is_some());
    // Line height is 1.2 * 10 = 12 whole pixels; code 99 is unknown
    // to the font and is skipped silently.
    let prims = extract_texts(1, &layout, font, 10, &vec![65, 99, 66], WHITE, 2);
    assert_eq!(prims.len(), 2);
    assert_eq!(prims[0].rect, Rect { x: 5, y: 15, w: 8, h: 12 });
    assert_eq!(prims[0].shape, PrimShape::Glyph { code: 65 });
    assert_eq!(prims[1].rect, Rect { x: 15, y: 15, w: 9, h: 12 });
    assert_eq!(prims[1].shape, PrimShape::Glyph { code: 66 });
    assert_eq!(prims[1].z, 2);
    assert_eq!(prims[1].node, 1);
}

#[test]
fn svg_extracts_layout_rect() {
    let layout = Rect { x: 4, y: 6, w: 30, h: 40 };
    let q: Primitive = extract_svg(3, &layout, 11, WHITE, 1);
    assert_eq!(q.rect, layout);
    assert_eq!(q.shape, PrimShape::Path { handle: 11 });
    assert_eq!(q.node, 3);
}

#[test]
fn fragment_widget_surface() {
    let mut f = Fragment { id: 3, styles: Some(Style::plain()) };
    assert_eq!(f.get_id(), 3);
    f.set_id(9);
    assert_eq!(f.get_id(), 9);
    assert_eq!(f.get_name(), "Fragment");
    assert!(f.get_styles().is_some());
}

#[test]
fn fragment_node_emits_no_primitives() {
    // A fragment groups its children and draws nothing itself.
    let book = FontBook { fonts: vec![] };
    let rect = Rect { x: 0, y: 0, w: 10, h: 10 };
    let prims = extract_node(0, &WidgetKind::Fragment, &rect, &book, WHITE, 0);
    assert!(prims.is_empty());
    // A container draws exactly its background quad.
    let prims = extract_node(1, &WidgetKind::Container, &rect, &book, WHITE, 0);
    assert_eq!(prims.len(), 1);
    assert_eq!(prims[0].shape, PrimShape::Quad);
    assert_eq!(prims[0].rect, rect);
}

#[test]
fn reorder_scopes_to_parent_only() {
    // A pure permutation re-lays the parent only...
    let prev = vec![keyed(1, 1), keyed(2, 2), keyed(3, 3)];
    let next = vec![keyed(0, 3), keyed(0, 1), keyed(0, 2)];
    for op in diff_children(&prev, &next) {
        assert_eq!(dirty_scope(&op), DirtyScope::ParentOnly);
    }
    // ...while an insert invalidates its subtree and ancestors.
    let prev2 = vec![keyed(1, 1)];
    let next2 = vec![keyed(0, 1), keyed(0, 2)];
    let ops = diff_children(&prev2, &next2);
    assert!(ops
        .iter()
        .any(|o| dirty_scope(o) == DirtyScope::SubtreeAndAncestors));
}
