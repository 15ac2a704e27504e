//! The node store: an arena of widget nodes addressed by stable index.
//!
//! A node's index is its identity for its whole lifetime; removal marks
//! the node and every descendant dead without disturbing any other index,
//! and a dead index is never handed out again within the arena. Looking
//! up a removed or never-issued index fails with `NotFound`.

use vstd::prelude::*;
use crate::style::Style;
use crate::widget::WidgetKind;

verus! {

/// Errors surfaced by the store.
#[derive(Clone, Copy, PartialEq, Eq, Structural, Debug)]
pub enum UiError {
    /// A stale or never-issued node index was referenced.
    NotFound,
}

/// One widget node in the arena.
pub struct Node {
    pub kind: WidgetKind,
    pub style: Style,
    pub key: Option<u64>,
    pub parent: Option<usize>,
    pub children: Vec<usize>,
    pub alive: bool,
}

/// The arena of nodes plus the committed root, if any.
pub struct NodeStore {
    pub nodes: Vec<Node>,
    pub root: Option<usize>,
}

/// Whether `j` lies in the subtree rooted at `i` (following parent
/// links; every node is its own descendant).
pub open spec fn is_desc(nodes: Seq<Node>, j: int, i: int) -> bool
    decreases j,
{
    if j == i {
        true
    } else if 0 <= j < nodes.len() {
        match nodes[j].parent {
            Some(p) => if (p as int) < j {
                is_desc(nodes, p as int, i)
            } else {
                false
            },
            None => false,
        }
    } else {
        false
    }
}

/// Two nodes that agree on everything except the liveness mark.
pub open spec fn node_same_but_alive(a: Node, b: Node) -> bool {
    &&& a.kind == b.kind
    &&& a.style == b.style
    &&& a.key == b.key
    &&& a.parent == b.parent
    &&& a.children@ == b.children@
}

/// If node `i` is live, its parent comes before it and is live.
pub open spec fn parent_ok(nodes: Seq<Node>, i: int) -> bool {
    nodes[i].alive ==> match nodes[i].parent {
        Some(p) => p < i && nodes[p as int].alive,
        None => true,
    }
}

/// If node `i` is live, its recorded children lie inside the arena,
/// after `i` itself.
pub open spec fn children_ok(nodes: Seq<Node>, i: int) -> bool {
    nodes[i].alive ==> forall|c: int|
        0 <= c < nodes[i].children@.len() ==> i < #[trigger] nodes[i].children@[c] < nodes.len()
}

/// Every node of the arena satisfies both per-node rules.
pub open spec fn nodes_wf(nodes: Seq<Node>) -> bool {
    &&& forall|i: int| 0 <= i < nodes.len() ==> #[trigger] parent_ok(nodes, i)
    &&& forall|i: int| 0 <= i < nodes.len() ==> #[trigger] children_ok(nodes, i)
}

impl NodeStore {
    /// Whether index `i` names a live node.
    pub open spec fn spec_alive(self, i: int) -> bool {
        0 <= i < self.nodes@.len() && self.nodes@[i].alive
    }

    /// Arena well-formedness: live parents precede live children, child
    /// indices stay in bounds, and the root is live and parentless.
    pub open spec fn wf(self) -> bool {
        &&& (self.root matches Some(r) ==> self.spec_alive(r as int) && self.nodes@[r as int].parent
            is None)
        &&& nodes_wf(self.nodes@)
    }

    /// An empty store: no nodes, no root.
    pub fn new() -> (s: NodeStore)
        ensures
            s.nodes@.len() == 0,
            s.root is None,
            s.wf(),
    {
        NodeStore { nodes: Vec::new(), root: None }
    }

    /// Number of indices ever issued, dead ones included.
    pub fn len(&self) -> (n: usize)
        ensures
            n == self.nodes@.len(),
    {
        self.nodes.len()
    }

    /// Whether index `i` names a live node.
    pub fn is_alive(&self, i: usize) -> (r: bool)
        ensures
            r == self.spec_alive(i as int),
    {
        i < self.nodes.len() && self.nodes[i].alive
    }

    /// Borrows the node at `i`, failing with `NotFound` when the index
    /// was removed or never issued.
    pub fn get(&self, i: usize) -> (r: Result<&Node, UiError>)
        ensures
            match r {
                Ok(n) => self.spec_alive(i as int) && *n == self.nodes@[i as int],
                Err(e) => e == UiError::NotFound && !self.spec_alive(i as int),
            },
    {
        if i < self.nodes.len() && self.nodes[i].alive {
            Ok(&self.nodes[i])
        } else {
            Err(UiError::NotFound)
        }
    }

    /// Creates a node under `parent` (or as the new root when `parent`
    /// is `None`) and returns its index, the next never-issued one.
    /// Fails with `NotFound` when the parent index is not alive.
    pub fn insert(
        &mut self,
        parent: Option<usize>,
        kind: WidgetKind,
        style: Style,
        key: Option<u64>,
    ) -> (r: Result<usize, UiError>)
        requires
            old(self).wf(),
        ensures
            final(self).wf(),
            match r {
                Ok(id) => {
                    &&& (match parent {
                        Some(p) => old(self).spec_alive(p as int),
                        None => true,
                    })
                    &&& id == old(self).nodes@.len()
                    &&& final(self).nodes@.len() == old(self).nodes@.len() + 1
                    &&& final(self).nodes@[id as int].kind == kind
                    &&& final(self).nodes@[id as int].style == style
                    &&& final(self).nodes@[id as int].key == key
                    &&& final(self).nodes@[id as int].parent == parent
                    &&& final(self).nodes@[id as int].children@.len() == 0
                    &&& final(self).nodes@[id as int].alive
                    &&& (match parent {
                        Some(p) => final(self).root == old(self).root && final(self).nodes@[p as int].children@ == old(self).nodes@[p as int].children@.push(
                            id,
                        ) && final(self).nodes@[p as int].alive,
                        None => final(self).root == Some(id),
                    })
                    &&& forall|j: int|
                        0 <= j < old(self).nodes@.len() && (parent matches Some(p) ==> j != p)
                            ==> final(self).nodes@[j] == old(self).nodes@[j]
                },
                Err(e) => {
                    &&& e == UiError::NotFound
                    &&& (parent matches Some(p) && !old(self).spec_alive(p as int))
                    &&& *final(self) == *old(self)
                },
            },
    {
        match parent {
            Some(p) => {
                if !(p < self.nodes.len() && self.nodes[p].alive) {
                    return Err(UiError::NotFound);
                }
                let id = self.nodes.len();
                self.nodes.push(
                    Node { kind, style, key, parent: Some(p), children: Vec::new(), alive: true },
                );
                self.nodes[p].children.push(id);
                proof {
                    lemma_wf_after_insert(old(self).nodes@, self.nodes@, p as int, id as int);
                }
                Ok(id)
            },
            None => {
                let id = self.nodes.len();
                self.nodes.push(
                    Node { kind, style, key, parent: None, children: Vec::new(), alive: true },
                );
                self.root = Some(id);
                proof {
                    lemma_wf_after_insert_root(old(self).nodes@, self.nodes@, id as int);
                }
                Ok(id)
            },
        }
    }

    /// Removes the node at `i` and, cascading, every descendant: exactly
    /// the subtree rooted at `i` dies, every other node keeps its index,
    /// fields and liveness. Fails with `NotFound` when `i` is not alive.
    pub fn remove(&mut self, i: usize) -> (r: Result<(), UiError>)
        requires
            old(self).wf(),
        ensures
            final(self).wf(),
            match r {
                Ok(_) => {
                    &&& old(self).spec_alive(i as int)
                    &&& final(self).nodes@.len() == old(self).nodes@.len()
                    &&& forall|j: int|
                        0 <= j < final(self).nodes@.len() ==> node_same_but_alive(
                            #[trigger] final(self).nodes@[j],
                            old(self).nodes@[j],
                        )
                    &&& forall|j: int|
                        0 <= j < final(self).nodes@.len() ==> ((#[trigger] final(self).nodes@[j]).alive <==> (old(self).nodes@[j].alive && !is_desc(
                            old(self).nodes@,
                            j,
                            i as int,
                        )))
                    &&& final(self).root == (if old(self).root == Some(i) {
                        None::<usize>
                    } else {
                        old(self).root
                    })
                },
                Err(e) => {
                    &&& e == UiError::NotFound
                    &&& !old(self).spec_alive(i as int)
                    &&& *final(self) == *old(self)
                },
            },
    {
        if !(i < self.nodes.len() && self.nodes[i].alive) {
            return Err(UiError::NotFound);
        }
        kill_subtree(&mut self.nodes, i);
        if self.root == Some(i) {
            self.root = None;
        }
        proof {
            lemma_wf_after_kill(old(self).nodes@, self.nodes@, i as int);
            match self.root {
                Some(r) => {
                    assert(parent_ok(old(self).nodes@, r as int));
                    assert(!is_desc(old(self).nodes@, r as int, i as int));
                },
                None => {},
            }
        }
        Ok(())
    }
}

/// Appending a fresh child under live parent `p` keeps the arena
/// well-formed.
proof fn lemma_wf_after_insert(oldn: Seq<Node>, newn: Seq<Node>, p: int, id: int)
    requires
        oldn.len() <= usize::MAX,
        nodes_wf(oldn),
        id == oldn.len(),
        newn.len() == oldn.len() + 1,
        0 <= p < oldn.len(),
        oldn[p].alive,
        forall|j: int| 0 <= j < oldn.len() && j != p ==> #[trigger] newn[j] == oldn[j],
        newn[p].alive == oldn[p].alive,
        newn[p].parent == oldn[p].parent,
        newn[p].children@ == oldn[p].children@.push(id as usize),
        newn[id].alive,
        newn[id].parent == Some(p as usize),
        newn[id].children@.len() == 0,
    ensures
        nodes_wf(newn),
{
    assert forall|i: int| 0 <= i < newn.len() implies #[trigger] parent_ok(newn, i) by {
        if i < oldn.len() {
            assert(parent_ok(oldn, i));
            if newn[i].alive {
                if i != p {
                    assert(newn[i] == oldn[i]);
                }
                match newn[i].parent {
                    Some(q) => {
                        if (q as int) != p {
                            assert(newn[q as int] == oldn[q as int]);
                        }
                    },
                    None => {},
                }
            }
        } else {
            assert(i == id);
        }
    }
    assert forall|i: int| 0 <= i < newn.len() implies #[trigger] children_ok(newn, i) by {
        if i < oldn.len() {
            assert(children_ok(oldn, i));
            if newn[i].alive {
                assert forall|c: int| 0 <= c < newn[i].children@.len() implies i
                    < #[trigger] newn[i].children@[c] < newn.len() by {
                    if i != p {
                        assert(newn[i] == oldn[i]);
                        assert(newn[i].children@ == oldn[i].children@);
                        assert(i < oldn[i].children@[c] < oldn.len());
                    } else {
                        if c < oldn[p].children@.len() {
                            assert(newn[i].children@[c] == oldn[p].children@[c]);
                            assert(i < oldn[p].children@[c] < oldn.len());
                        } else {
                            assert(newn[i].children@[c] == id as usize);
                        }
                    }
                }
            }
        } else {
            assert(i == id);
        }
    }
}

/// Appending a fresh parentless root keeps the arena well-formed.
proof fn lemma_wf_after_insert_root(oldn: Seq<Node>, newn: Seq<Node>, id: int)
    requires
        oldn.len() <= usize::MAX,
        nodes_wf(oldn),
        id == oldn.len(),
        newn.len() == oldn.len() + 1,
        forall|j: int| 0 <= j < oldn.len() ==> #[trigger] newn[j] == oldn[j],
        newn[id].alive,
        newn[id].parent is None,
        newn[id].children@.len() == 0,
    ensures
        nodes_wf(newn),
{
    assert forall|i: int| 0 <= i < newn.len() implies #[trigger] parent_ok(newn, i) by {
        if i < oldn.len() {
            assert(parent_ok(oldn, i));
            assert(newn[i] == oldn[i]);
            if newn[i].alive {
                match newn[i].parent {
                    Some(q) => {
                        assert(newn[q as int] == oldn[q as int]);
                    },
                    None => {},
                }
            }
        }
    }
    assert forall|i: int| 0 <= i < newn.len() implies #[trigger] children_ok(newn, i) by {
        if i < oldn.len() {
            assert(children_ok(oldn, i));
            assert(newn[i] == oldn[i]);
            if newn[i].alive {
                assert forall|c: int| 0 <= c < newn[i].children@.len() implies i
                    < #[trigger] newn[i].children@[c] < newn.len() by {
                    assert(newn[i].children@ == oldn[i].children@);
                    assert(i < oldn[i].children@[c] < oldn.len());
                }
            }
        }
    }
}

/// Marks node `i` and, by one forward sweep, exactly its descendants
/// dead: children always follow their parents in the arena, so a node
/// dies when its parent has already died.
fn kill_subtree(nodes: &mut Vec<Node>, i: usize)
    requires
        i < old(nodes)@.len(),
        old(nodes)@[i as int].alive,
        nodes_wf(old(nodes)@),
    ensures
        final(nodes)@.len() == old(nodes)@.len(),
        forall|t: int|
            0 <= t < final(nodes)@.len() ==> node_same_but_alive(
                #[trigger] final(nodes)@[t],
                old(nodes)@[t],
            ),
        forall|t: int|
            0 <= t < final(nodes)@.len() ==> ((#[trigger] final(nodes)@[t]).alive <==> (old(nodes)@[t].alive && !is_desc(old(nodes)@, t, i as int))),
{
    nodes[i].alive = false;
    proof {
        assert(is_desc(old(nodes)@, i as int, i as int));
        assert forall|t: int|
            0 <= t <= i as int implies ((#[trigger] nodes@[t]).alive <==> (old(nodes)@[t].alive
            && !is_desc(old(nodes)@, t, i as int))) by {
            if t < i as int && is_desc(old(nodes)@, t, i as int) {
                lemma_desc_lower(old(nodes)@, t, i as int);
            }
        }
    }
    let total = nodes.len();
    let mut j: usize = i + 1;
    while j < total
        invariant
            i < j <= nodes@.len(),
            i < old(nodes)@.len(),
            total == nodes@.len(),
            nodes@.len() == old(nodes)@.len(),
            nodes_wf(old(nodes)@),
            forall|t: int|
                0 <= t < nodes@.len() ==> node_same_but_alive(#[trigger] nodes@[t], old(nodes)@[t]),
            forall|t: int|
                0 <= t < j ==> ((#[trigger] nodes@[t]).alive <==> (old(nodes)@[t].alive && !is_desc(
                    old(nodes)@,
                    t,
                    i as int,
                ))),
            forall|t: int|
                j <= t < nodes@.len() ==> (#[trigger] nodes@[t]).alive == old(nodes)@[t].alive,
        decreases nodes@.len() - j,
    {
        let dead_parent = match nodes[j].parent {
            Some(p) => p < j && !nodes[p].alive,
            None => false,
        };
        if nodes[j].alive && dead_parent {
            nodes[j].alive = false;
        }
        proof {
            assert(parent_ok(old(nodes)@, j as int));
            lemma_desc_parent_step(old(nodes)@, j as int, i as int);
        }
        j = j + 1;
    }
}

/// Unfolds descendancy one parent step.
proof fn lemma_desc_parent_step(nodes: Seq<Node>, j: int, i: int)
    requires
        0 <= j < nodes.len(),
        j != i,
    ensures
        is_desc(nodes, j, i) <==> (nodes[j].parent matches Some(p) && (p as int) < j && is_desc(
            nodes,
            p as int,
            i,
        )),
{
}

/// A removed subtree only reaches indices at or above its root.
proof fn lemma_desc_lower(nodes: Seq<Node>, j: int, i: int)
    requires
        is_desc(nodes, j, i),
    ensures
        j >= i,
    decreases j,
{
    if j != i && 0 <= j < nodes.len() {
        match nodes[j].parent {
            Some(p) => {
                if (p as int) < j {
                    lemma_desc_lower(nodes, p as int, i);
                }
            },
            None => {},
        }
    }
}

/// Killing a subtree preserves the per-node arena rules.
proof fn lemma_wf_after_kill(oldn: Seq<Node>, newn: Seq<Node>, i: int)
    requires
        oldn.len() == newn.len(),
        0 <= i < oldn.len(),
        nodes_wf(oldn),
        forall|t: int| 0 <= t < newn.len() ==> node_same_but_alive(#[trigger] newn[t], oldn[t]),
        forall|t: int|
            0 <= t < newn.len() ==> ((#[trigger] newn[t]).alive <==> (oldn[t].alive && !is_desc(
                oldn,
                t,
                i,
            ))),
    ensures
        nodes_wf(newn),
{
    assert forall|t: int| 0 <= t < newn.len() implies #[trigger] parent_ok(newn, t) by {
        assert(parent_ok(oldn, t));
        if newn[t].alive {
            assert(oldn[t].alive && !is_desc(oldn, t, i));
            if t != i {
                lemma_desc_parent_step(oldn, t, i);
            }
            match oldn[t].parent {
                Some(p) => {
                    assert(p < t && oldn[p as int].alive);
                },
                None => {},
            }
        }
    }
    assert forall|t: int| 0 <= t < newn.len() implies #[trigger] children_ok(newn, t) by {
        assert(children_ok(oldn, t));
        if newn[t].alive {
            assert(oldn[t].alive);
            assert forall|c: int| 0 <= c < newn[t].children@.len() implies t
                < #[trigger] newn[t].children@[c] < newn.len() by {
                assert(newn[t].children@ == oldn[t].children@);
                assert(t < oldn[t].children@[c] < oldn.len());
            }
        }
    }
}

} // verus!
