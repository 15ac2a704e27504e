//! The event dispatcher: hit-testing by z-order, bubbling towards the
//! root, and the process-wide focus state.
//!
//! A pointer event goes to the deepest interested node whose screen
//! bounds contain the point: among all candidates the one with the
//! highest effective z-index wins, ties going to the node latest in the
//! arena (children always follow their parents there, so an overlapping
//! child beats its parent). If the target's handler does not consume the
//! event, it bubbles along the returned parent chain until the root.

use vstd::prelude::*;
use crate::geom::{Point, Rect, spec_contains, rect_contains};
use crate::store::{NodeStore, UiError};
use crate::style::Style;

verus! {

/// The kinds of input events the dispatcher routes.
#[derive(Clone, Copy, PartialEq, Eq, Structural, Debug)]
pub enum EventKind {
    PointerDown,
    PointerUp,
    PointerMove,
    KeyDown,
    KeyUp,
}

/// Whether a node with this style declares interest in the event kind.
pub open spec fn spec_interested(s: Style, kind: EventKind) -> bool {
    match kind {
        EventKind::PointerDown | EventKind::PointerUp | EventKind::PointerMove => s.pointer_events,
        EventKind::KeyDown | EventKind::KeyUp => s.keyboard_events,
    }
}

/// The effective z-index a node paints and hit-tests at: its explicit
/// overlay request, or zero.
pub open spec fn spec_eff_z(s: Style) -> int {
    if s.has_z {
        s.z_value as int
    } else {
        0
    }
}

/// Whether node `i` can receive the event: live, laid out, containing
/// the point, and interested in the kind.
pub open spec fn hit_candidate(
    store: NodeStore,
    layouts: Seq<Option<Rect>>,
    p: Point,
    kind: EventKind,
    i: int,
) -> bool {
    &&& store.spec_alive(i)
    &&& 0 <= i < layouts.len()
    &&& layouts[i] matches Some(r) && spec_contains(r, p)
    &&& spec_interested(store.nodes@[i].style, kind)
}

fn interested(s: &Style, kind: EventKind) -> (r: bool)
    ensures
        r == spec_interested(*s, kind),
{
    match kind {
        EventKind::PointerDown | EventKind::PointerUp | EventKind::PointerMove => s.pointer_events,
        EventKind::KeyDown | EventKind::KeyUp => s.keyboard_events,
    }
}

fn eff_z(s: &Style) -> (z: i32)
    ensures
        z as int == spec_eff_z(*s),
{
    if s.has_z {
        s.z_value
    } else {
        0
    }
}

/// Finds the event target: the candidate with the highest effective
/// z-index, ties broken toward the latest arena index (the deepest
/// overlapping node). Returns `None` when no node can take the event.
pub fn hit_test(
    store: &NodeStore,
    layouts: &Vec<Option<Rect>>,
    p: &Point,
    kind: EventKind,
) -> (r: Option<usize>)
    requires
        layouts@.len() == store.nodes@.len(),
    ensures
        match r {
            Some(t) => hit_candidate(*store, layouts@, *p, kind, t as int) && forall|i: int|
                hit_candidate(*store, layouts@, *p, kind, i) ==> (spec_eff_z(
                    #[trigger] store.nodes@[i].style,
                ) < spec_eff_z(store.nodes@[t as int].style) || (spec_eff_z(store.nodes@[i].style)
                    == spec_eff_z(store.nodes@[t as int].style) && i <= t as int)),
            None => forall|i: int| !hit_candidate(*store, layouts@, *p, kind, i),
        },
{
    let mut best: Option<usize> = None;
    let mut best_z: i32 = 0;
    let mut i: usize = 0;
    while i < layouts.len()
        invariant
            layouts@.len() == store.nodes@.len(),
            0 <= i <= layouts@.len(),
            match best {
                Some(t) => hit_candidate(*store, layouts@, *p, kind, t as int) && best_z as int
                    == spec_eff_z(store.nodes@[t as int].style) && t < i && forall|j: int|
                    0 <= j < i && hit_candidate(*store, layouts@, *p, kind, j) ==> (spec_eff_z(
                        #[trigger] store.nodes@[j].style,
                    ) < best_z as int || (spec_eff_z(store.nodes@[j].style) == best_z as int && j
                        <= t as int)),
                None => forall|j: int| 0 <= j < i ==> !hit_candidate(*store, layouts@, *p, kind, j),
            },
        decreases layouts@.len() - i,
    {
        let is_cand = if store.is_alive(i) {
            match &layouts[i] {
                Some(rect) => {
                    if rect_contains(rect, p) {
                        let node = match store.get(i) {
                            Ok(n) => n,
                            Err(_) => {
                                proof {
                                    assert(false);
                                }
                                return None;
                            },
                        };
                        interested(&node.style, kind)
                    } else {
                        false
                    }
                },
                None => false,
            }
        } else {
            false
        };
        if is_cand {
            let node = match store.get(i) {
                Ok(n) => n,
                Err(_) => {
                    proof {
                        assert(false);
                    }
                    return None;
                },
            };
            let z = eff_z(&node.style);
            let take = match best {
                Some(_) => z > best_z || z == best_z,
                None => true,
            };
            if take {
                best = Some(i);
                best_z = z;
            }
        }
        i = i + 1;
    }
    proof {
        if best is None {
            assert forall|j: int| !hit_candidate(*store, layouts@, *p, kind, j) by {}
        }
    }
    best
}

/// The bubble chain: the target first, then its parents up to the root.
/// The caller runs handlers along it in order until one consumes the
/// event.
pub fn bubble_path(store: &NodeStore, target: usize) -> (path: Vec<usize>)
    requires
        store.wf(),
        store.spec_alive(target as int),
    ensures
        path@.len() >= 1,
        path@[0] == target,
        forall|t: int|
            0 <= t < path@.len() ==> store.spec_alive(#[trigger] path@[t] as int),
        forall|t: int|
            0 <= t < path@.len() - 1 ==> store.nodes@[#[trigger] path@[t] as int].parent == Some(
                path@[t + 1],
            ),
        store.nodes@[path@[path@.len() - 1] as int].parent is None,
{
    let mut path: Vec<usize> = Vec::new();
    path.push(target);
    let mut cur: usize = target;
    loop
        invariant
            store.wf(),
            store.spec_alive(cur as int),
            path@.len() >= 1,
            path@[0] == target,
            path@[path@.len() - 1] == cur,
            forall|t: int| 0 <= t < path@.len() ==> store.spec_alive(#[trigger] path@[t] as int),
            forall|t: int|
                0 <= t < path@.len() - 1 ==> store.nodes@[#[trigger] path@[t] as int].parent
                    == Some(path@[t + 1]),
        ensures
            store.nodes@[cur as int].parent is None,
            path@.len() >= 1,
            path@[0] == target,
            path@[path@.len() - 1] == cur,
            forall|t: int| 0 <= t < path@.len() ==> store.spec_alive(#[trigger] path@[t] as int),
            forall|t: int|
                0 <= t < path@.len() - 1 ==> store.nodes@[#[trigger] path@[t] as int].parent
                    == Some(path@[t + 1]),
        decreases cur,
    {
        proof {
            assert(crate::store::parent_ok(store.nodes@, cur as int));
        }
        let parent = match store.get(cur) {
            Ok(n) => n.parent,
            Err(_) => {
                proof {
                    assert(false);
                }
                None
            },
        };
        match parent {
            Some(par) => {
                path.push(par);
                cur = par;
            },
            None => {
                break ;
            },
        }
    }
    path
}

/// Routes a pointer event: the returned chain starts at the hit-test
/// winner (highest z, then deepest) and climbs to the root; it is empty
/// exactly when no live, laid-out, interested node contains the point.
pub fn dispatch(
    store: &NodeStore,
    layouts: &Vec<Option<Rect>>,
    p: &Point,
    kind: EventKind,
) -> (path: Vec<usize>)
    requires
        store.wf(),
        layouts@.len() == store.nodes@.len(),
    ensures
        path@.len() == 0 ==> forall|i: int| !hit_candidate(*store, layouts@, *p, kind, i),
        path@.len() > 0 ==> {
            &&& hit_candidate(*store, layouts@, *p, kind, path@[0] as int)
            &&& forall|i: int|
                hit_candidate(*store, layouts@, *p, kind, i) ==> (spec_eff_z(
                    #[trigger] store.nodes@[i].style,
                ) < spec_eff_z(store.nodes@[path@[0] as int].style) || (spec_eff_z(
                    store.nodes@[i].style,
                ) == spec_eff_z(store.nodes@[path@[0] as int].style) && i <= path@[0] as int))
            &&& forall|t: int|
                0 <= t < path@.len() - 1 ==> store.nodes@[#[trigger] path@[t] as int].parent
                    == Some(path@[t + 1])
            &&& store.nodes@[path@[path@.len() - 1] as int].parent is None
        },
{
    match hit_test(store, layouts, p, kind) {
        Some(target) => bubble_path(store, target),
        None => Vec::new(),
    }
}

/// The process-wide focus state, a single optional node index.
pub struct UiState {
    pub focus: Option<usize>,
}

impl UiState {
    /// Fresh state: nothing focused.
    pub fn new() -> (s: UiState)
        ensures
            s.focus is None,
    {
        UiState { focus: None }
    }

    /// Focuses a live node; a stale index fails with `NotFound` and
    /// leaves focus unchanged.
    pub fn set_focus(&mut self, store: &NodeStore, i: usize) -> (r: Result<(), UiError>)
        ensures
            match r {
                Ok(_) => store.spec_alive(i as int) && final(self).focus == Some(i),
                Err(e) => e == UiError::NotFound && !store.spec_alive(i as int) && final(self).focus == old(self).focus,
            },
    {
        if store.is_alive(i) {
            self.focus = Some(i);
            Ok(())
        } else {
            Err(UiError::NotFound)
        }
    }

    /// Clears focus silently when the focused node no longer exists
    /// (removed by the diff); keeps it otherwise.
    pub fn clear_lost_focus(&mut self, store: &NodeStore)
        ensures
            final(self).focus == (match old(self).focus {
                Some(f) => if store.spec_alive(f as int) {
                    Some(f)
                } else {
                    None
                },
                None => None::<usize>,
            }),
    {
        match self.focus {
            Some(f) => {
                if !store.is_alive(f) {
                    self.focus = None;
                }
            },
            None => {},
        }
    }
}

} // verus!
