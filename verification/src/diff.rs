//! The diff engine's children-matching core.
//!
//! For one parent, the previous committed children and the newly declared
//! children are matched in a single pass: keyed children are resolved
//! first (the n-th occurrence of a key among the new children pairs with
//! the n-th occurrence of that key among the previous children), then the
//! remaining unkeyed children are paired greedily by position. A matched
//! pair whose widget kind changed forces a remove-then-insert, since no
//! transform between kinds exists; a matched pair with changed style or
//! content becomes an update; an unchanged pair that moved becomes a
//! reorder; an unchanged pair in place produces no operation at all.

use vstd::prelude::*;
use crate::style::Style;
use crate::widget::{WidgetKind, kind_tag, kind_eq_spec, kind_eq, same_tag};

verus! {

/// One child as the matcher sees it: the committed node id (meaningless
/// on the newly declared side), the application key, the kind and style.
pub struct ChildRef {
    pub id: usize,
    pub key: Option<u64>,
    pub kind: WidgetKind,
    pub style: Style,
}

/// One reconciliation operation for a single parent's child list.
/// Positions are indices into the newly declared child list.
#[derive(Clone, Copy, PartialEq, Eq, Structural, Debug)]
pub enum ChildOp {
    /// The declared child has no match: a node must be created at this
    /// position.
    Insert { new_pos: usize },
    /// A match exists but the widget kind changed: the previous child is
    /// removed and a new node inserted in its place.
    Replace { prev_idx: usize, new_pos: usize },
    /// A match exists and only style or content changed: the committed
    /// node is updated in place.
    Update { prev_idx: usize, new_pos: usize },
    /// A match exists with identical content but a different sibling
    /// position: only the parent's child order changes.
    Reorder { prev_idx: usize, new_pos: usize },
    /// The previous child has no match and is removed with its subtree.
    Remove { prev_idx: usize },
}

/// Number of children among `s[0..end]` carrying key `k`.
pub open spec fn count_key(s: Seq<ChildRef>, k: u64, end: int) -> int
    decreases end,
{
    if end <= 0 {
        0
    } else {
        count_key(s, k, end - 1) + if s[end - 1].key == Some(k) {
            1int
        } else {
            0int
        }
    }
}

/// Number of unkeyed children among `s[0..end]`.
pub open spec fn count_unkeyed(s: Seq<ChildRef>, end: int) -> int
    decreases end,
{
    if end <= 0 {
        0
    } else {
        count_unkeyed(s, end - 1) + if s[end - 1].key is None {
            1int
        } else {
            0int
        }
    }
}

/// Index of the `n`-th child (counting from zero) at or after `from`
/// that carries key `k`.
pub open spec fn find_nth_key(s: Seq<ChildRef>, k: u64, n: int, from: int) -> Option<int>
    decreases s.len() - from,
{
    if from < 0 || from >= s.len() {
        None
    } else if s[from].key == Some(k) {
        if n <= 0 {
            Some(from)
        } else {
            find_nth_key(s, k, n - 1, from + 1)
        }
    } else {
        find_nth_key(s, k, n, from + 1)
    }
}

/// Index of the `n`-th unkeyed child at or after `from`.
pub open spec fn find_nth_unkeyed(s: Seq<ChildRef>, n: int, from: int) -> Option<int>
    decreases s.len() - from,
{
    if from < 0 || from >= s.len() {
        None
    } else if s[from].key is None {
        if n <= 0 {
            Some(from)
        } else {
            find_nth_unkeyed(s, n - 1, from + 1)
        }
    } else {
        find_nth_unkeyed(s, n, from + 1)
    }
}

/// The matching policy: the previous child, if any, that new child `j`
/// pairs with. A keyed child pairs with the previous child carrying the
/// same key at the same occurrence rank; an unkeyed child pairs with the
/// unkeyed previous child at the same unkeyed rank.
pub open spec fn match_of(prev: Seq<ChildRef>, next: Seq<ChildRef>, j: int) -> Option<int> {
    match next[j].key {
        Some(k) => find_nth_key(prev, k, count_key(next, k, j), 0),
        None => find_nth_unkeyed(prev, count_unkeyed(next, j), 0),
    }
}

/// Whether previous child `i` is matched by some new child.
pub open spec fn prev_matched(prev: Seq<ChildRef>, next: Seq<ChildRef>, i: int) -> bool {
    match prev[i].key {
        Some(k) => count_key(prev, k, i) < count_key(next, k, next.len() as int),
        None => count_unkeyed(prev, i) < count_unkeyed(next, next.len() as int),
    }
}

/// Whether a matched pair is unchanged: same key, deep-equal kind and
/// equal style.
pub open spec fn child_same(p: ChildRef, n: ChildRef) -> bool {
    p.key == n.key && kind_eq_spec(p.kind, n.kind) && p.style == n.style
}

/// The operations new child `j` contributes to the plan.
pub open spec fn op_for(prev: Seq<ChildRef>, next: Seq<ChildRef>, j: int) -> Seq<ChildOp> {
    match match_of(prev, next, j) {
        None => seq![ChildOp::Insert { new_pos: j as usize }],
        Some(i) => if kind_tag(prev[i].kind) != kind_tag(next[j].kind) {
            seq![ChildOp::Replace { prev_idx: i as usize, new_pos: j as usize }]
        } else if !child_same(prev[i], next[j]) {
            seq![ChildOp::Update { prev_idx: i as usize, new_pos: j as usize }]
        } else if i != j {
            seq![ChildOp::Reorder { prev_idx: i as usize, new_pos: j as usize }]
        } else {
            Seq::<ChildOp>::empty()
        },
    }
}

/// Operations for new children `next[0..j]`, in declaration order.
pub open spec fn new_ops(prev: Seq<ChildRef>, next: Seq<ChildRef>, j: int) -> Seq<ChildOp>
    decreases j,
{
    if j <= 0 {
        Seq::<ChildOp>::empty()
    } else {
        new_ops(prev, next, j - 1) + op_for(prev, next, j - 1)
    }
}

/// Removal operations for previous children `prev[0..i]` that no new
/// child matches.
pub open spec fn remove_ops(prev: Seq<ChildRef>, next: Seq<ChildRef>, i: int) -> Seq<ChildOp>
    decreases i,
{
    if i <= 0 {
        Seq::<ChildOp>::empty()
    } else {
        remove_ops(prev, next, i - 1) + if prev_matched(prev, next, i - 1) {
            Seq::<ChildOp>::empty()
        } else {
            seq![ChildOp::Remove { prev_idx: (i - 1) as usize }]
        }
    }
}

/// The complete single-parent plan: operations for every new child, then
/// removals of every unmatched previous child.
pub open spec fn child_ops(prev: Seq<ChildRef>, next: Seq<ChildRef>) -> Seq<ChildOp> {
    new_ops(prev, next, next.len() as int) + remove_ops(prev, next, prev.len() as int)
}

/// Equality of two optional keys.
fn key_eq(a: &Option<u64>, b: &Option<u64>) -> (r: bool)
    ensures
        r == (*a == *b),
{
    match (a, b) {
        (Some(x), Some(y)) => *x == *y,
        (None, None) => true,
        _ => false,
    }
}

/// Counts children of `s[0..end]` carrying key `k`.
fn ecount_key(s: &Vec<ChildRef>, k: u64, end: usize) -> (c: usize)
    requires
        end <= s@.len(),
    ensures
        c == count_key(s@, k, end as int),
{
    let mut c: usize = 0;
    let mut t: usize = 0;
    while t < end
        invariant
            0 <= t <= end <= s@.len(),
            c == count_key(s@, k, t as int),
            c <= t,
        decreases end - t,
    {
        let hit = match s[t].key {
            Some(kk) => kk == k,
            None => false,
        };
        if hit {
            c = c + 1;
        }
        t = t + 1;
    }
    c
}

/// Counts unkeyed children of `s[0..end]`.
fn ecount_unkeyed(s: &Vec<ChildRef>, end: usize) -> (c: usize)
    requires
        end <= s@.len(),
    ensures
        c == count_unkeyed(s@, end as int),
{
    let mut c: usize = 0;
    let mut t: usize = 0;
    while t < end
        invariant
            0 <= t <= end <= s@.len(),
            c == count_unkeyed(s@, t as int),
            c <= t,
        decreases end - t,
    {
        let hit = match s[t].key {
            Some(_) => false,
            None => true,
        };
        if hit {
            c = c + 1;
        }
        t = t + 1;
    }
    c
}

/// Finds the `n`-th child carrying key `k`.
fn efind_nth_key(s: &Vec<ChildRef>, k: u64, n: usize) -> (r: Option<usize>)
    ensures
        match r {
            Some(i) => find_nth_key(s@, k, n as int, 0) == Some(i as int) && i < s@.len(),
            None => find_nth_key(s@, k, n as int, 0) is None,
        },
{
    let mut from: usize = 0;
    let mut rem: usize = n;
    while from < s.len()
        invariant
            0 <= from <= s@.len(),
            find_nth_key(s@, k, n as int, 0) == find_nth_key(s@, k, rem as int, from as int),
        decreases s@.len() - from,
    {
        let hit = match s[from].key {
            Some(kk) => kk == k,
            None => false,
        };
        if hit {
            if rem == 0 {
                return Some(from);
            }
            rem = rem - 1;
        }
        from = from + 1;
    }
    None
}

/// Finds the `n`-th unkeyed child.
fn efind_nth_unkeyed(s: &Vec<ChildRef>, n: usize) -> (r: Option<usize>)
    ensures
        match r {
            Some(i) => find_nth_unkeyed(s@, n as int, 0) == Some(i as int) && i < s@.len(),
            None => find_nth_unkeyed(s@, n as int, 0) is None,
        },
{
    let mut from: usize = 0;
    let mut rem: usize = n;
    while from < s.len()
        invariant
            0 <= from <= s@.len(),
            find_nth_unkeyed(s@, n as int, 0) == find_nth_unkeyed(s@, rem as int, from as int),
        decreases s@.len() - from,
    {
        let hit = match s[from].key {
            Some(_) => false,
            None => true,
        };
        if hit {
            if rem == 0 {
                return Some(from);
            }
            rem = rem - 1;
        }
        from = from + 1;
    }
    None
}

/// The previous child, if any, that new child `j` pairs with.
pub fn match_child(prev: &Vec<ChildRef>, next: &Vec<ChildRef>, j: usize) -> (r: Option<usize>)
    requires
        j < next@.len(),
    ensures
        match r {
            Some(i) => match_of(prev@, next@, j as int) == Some(i as int) && i < prev@.len(),
            None => match_of(prev@, next@, j as int) is None,
        },
{
    match next[j].key {
        Some(k) => {
            let n = ecount_key(next, k, j);
            efind_nth_key(prev, k, n)
        },
        None => {
            let n = ecount_unkeyed(next, j);
            efind_nth_unkeyed(prev, n)
        },
    }
}

/// Whether previous child `i` is matched by some new child.
pub fn is_prev_matched(prev: &Vec<ChildRef>, next: &Vec<ChildRef>, i: usize) -> (r: bool)
    requires
        i < prev@.len(),
    ensures
        r == prev_matched(prev@, next@, i as int),
{
    match prev[i].key {
        Some(k) => {
            let a = ecount_key(prev, k, i);
            let b = ecount_key(next, k, next.len());
            a < b
        },
        None => {
            let a = ecount_unkeyed(prev, i);
            let b = ecount_unkeyed(next, next.len());
            a < b
        },
    }
}

/// Whether a matched pair is unchanged.
fn child_same_exec(p: &ChildRef, n: &ChildRef) -> (r: bool)
    ensures
        r == child_same(*p, *n),
{
    key_eq(&p.key, &n.key) && kind_eq(&p.kind, &n.kind) && p.style == n.style
}

/// Reconciles one parent's child lists, producing the single-parent plan:
/// per new child either nothing (unchanged in place), a reorder, an
/// update, a replace or an insert, followed by removals of the unmatched
/// previous children.
pub fn diff_children(prev: &Vec<ChildRef>, next: &Vec<ChildRef>) -> (ops: Vec<ChildOp>)
    ensures
        ops@ == child_ops(prev@, next@),
{
    let mut ops: Vec<ChildOp> = Vec::new();
    let mut j: usize = 0;
    while j < next.len()
        invariant
            0 <= j <= next@.len(),
            ops@ == new_ops(prev@, next@, j as int),
        decreases next@.len() - j,
    {
        let m = match_child(prev, next, j);
        match m {
            None => {
                ops.push(ChildOp::Insert { new_pos: j });
            },
            Some(i) => {
                if !same_tag(&prev[i].kind, &next[j].kind) {
                    ops.push(ChildOp::Replace { prev_idx: i, new_pos: j });
                } else if !child_same_exec(&prev[i], &next[j]) {
                    ops.push(ChildOp::Update { prev_idx: i, new_pos: j });
                } else if i != j {
                    ops.push(ChildOp::Reorder { prev_idx: i, new_pos: j });
                }
            },
        }
        j = j + 1;
        proof {
            assert(ops@ =~= new_ops(prev@, next@, j as int));
        }
    }
    let mut i: usize = 0;
    while i < prev.len()
        invariant
            0 <= i <= prev@.len(),
            ops@ == new_ops(prev@, next@, next@.len() as int) + remove_ops(prev@, next@, i as int),
        decreases prev@.len() - i,
    {
        if !is_prev_matched(prev, next, i) {
            ops.push(ChildOp::Remove { prev_idx: i });
        }
        i = i + 1;
        proof {
            assert(ops@ =~= new_ops(prev@, next@, next@.len() as int) + remove_ops(
                prev@,
                next@,
                i as int,
            ));
        }
    }
    ops
}

/// How far a plan operation invalidates layout.
#[derive(Clone, Copy, PartialEq, Eq, Structural, Debug)]
pub enum DirtyScope {
    /// Inserts, updates, replaces and removes re-lay the touched
    /// subtree and its ancestors.
    SubtreeAndAncestors,
    /// A pure sibling reorder re-lays the parent only; unmoved,
    /// unchanged siblings are not marked dirty.
    ParentOnly,
}

/// The layout-invalidation scope of one operation.
pub open spec fn spec_dirty_scope(op: ChildOp) -> DirtyScope {
    match op {
        ChildOp::Reorder { .. } => DirtyScope::ParentOnly,
        _ => DirtyScope::SubtreeAndAncestors,
    }
}

/// Classifies one plan operation for layout-invalidation scoping.
pub fn dirty_scope(op: &ChildOp) -> (r: DirtyScope)
    ensures
        r == spec_dirty_scope(*op),
{
    match op {
        ChildOp::Reorder { .. } => DirtyScope::ParentOnly,
        _ => DirtyScope::SubtreeAndAncestors,
    }
}

/// Reorder plans never dirty a subtree: every operation of a plan that
/// holds reorders alone scopes to the parent, so unmoved, unchanged
/// nodes keep their layout.
pub proof fn lemma_reorder_plan_dirties_parent_only(prev: Seq<ChildRef>, next: Seq<ChildRef>)
    requires
        forall|j: int|
            0 <= j < next.len() ==> (#[trigger] match_of(prev, next, j) matches Some(i)
                && child_same(prev[i], next[j])),
        forall|i: int| 0 <= i < prev.len() ==> prev_matched(prev, next, i),
    ensures
        forall|t: int|
            0 <= t < child_ops(prev, next).len() ==> spec_dirty_scope(
                #[trigger] child_ops(prev, next)[t],
            ) == DirtyScope::ParentOnly,
{
    lemma_reorder_without_churn(prev, next);
}

// ---------------------------------------------------------------------
// Laws of the matching policy.
// ---------------------------------------------------------------------

/// Counting is monotone in the prefix length.
proof fn lemma_count_key_mono(s: Seq<ChildRef>, k: u64, j1: int, j2: int)
    requires
        j1 <= j2,
    ensures
        count_key(s, k, j1) <= count_key(s, k, j2),
    decreases j2 - j1,
{
    if j1 < j2 {
        lemma_count_key_mono(s, k, j1, j2 - 1);
    }
}

proof fn lemma_count_unkeyed_mono(s: Seq<ChildRef>, j1: int, j2: int)
    requires
        j1 <= j2,
    ensures
        count_unkeyed(s, j1) <= count_unkeyed(s, j2),
    decreases j2 - j1,
{
    if j1 < j2 {
        lemma_count_unkeyed_mono(s, j1, j2 - 1);
    }
}

/// A keyed occurrence strictly raises every later count.
proof fn lemma_count_key_strict(s: Seq<ChildRef>, k: u64, j: int, end: int)
    requires
        0 <= j < end,
        s[j].key == Some(k),
    ensures
        count_key(s, k, end) >= count_key(s, k, j) + 1,
{
    lemma_count_key_mono(s, k, j + 1, end);
}

proof fn lemma_count_unkeyed_strict(s: Seq<ChildRef>, j: int, end: int)
    requires
        0 <= j < end,
        s[j].key is None,
    ensures
        count_unkeyed(s, end) >= count_unkeyed(s, j) + 1,
{
    lemma_count_unkeyed_mono(s, j + 1, end);
}

/// What a successful keyed search says: the found child carries the key
/// and sits at occurrence rank `n` relative to the search start.
proof fn lemma_find_key_props(s: Seq<ChildRef>, k: u64, n: int, from: int, i: int)
    requires
        0 <= from,
        0 <= n,
        find_nth_key(s, k, n, from) == Some(i),
    ensures
        from <= i < s.len(),
        s[i].key == Some(k),
        count_key(s, k, i) == n + count_key(s, k, from),
    decreases s.len() - from,
{
    if from < s.len() {
        if s[from].key == Some(k) {
            if n > 0 {
                lemma_find_key_props(s, k, n - 1, from + 1, i);
            }
        } else {
            lemma_find_key_props(s, k, n, from + 1, i);
        }
    }
}

proof fn lemma_find_unkeyed_props(s: Seq<ChildRef>, n: int, from: int, i: int)
    requires
        0 <= from,
        0 <= n,
        find_nth_unkeyed(s, n, from) == Some(i),
    ensures
        from <= i < s.len(),
        s[i].key is None,
        count_unkeyed(s, i) == n + count_unkeyed(s, from),
    decreases s.len() - from,
{
    if from < s.len() {
        if s[from].key is None {
            if n > 0 {
                lemma_find_unkeyed_props(s, n - 1, from + 1, i);
            }
        } else {
            lemma_find_unkeyed_props(s, n, from + 1, i);
        }
    }
}

/// Searching for a child's own occurrence rank finds the child itself.
proof fn lemma_find_key_of_count(s: Seq<ChildRef>, k: u64, j: int, from: int)
    requires
        0 <= from <= j < s.len(),
        s[j].key == Some(k),
    ensures
        find_nth_key(s, k, count_key(s, k, j) - count_key(s, k, from), from) == Some(j),
    decreases j - from,
{
    if from < j {
        lemma_find_key_of_count(s, k, j, from + 1);
        lemma_count_key_mono(s, k, from + 1, j);
    }
}

proof fn lemma_find_unkeyed_of_count(s: Seq<ChildRef>, j: int, from: int)
    requires
        0 <= from <= j < s.len(),
        s[j].key is None,
    ensures
        find_nth_unkeyed(s, count_unkeyed(s, j) - count_unkeyed(s, from), from) == Some(j),
    decreases j - from,
{
    if from < j {
        lemma_find_unkeyed_of_count(s, j, from + 1);
        lemma_count_unkeyed_mono(s, from + 1, j);
    }
}

/// A successful match pairs children with equal keys at equal occurrence
/// ranks.
pub proof fn lemma_match_props(prev: Seq<ChildRef>, next: Seq<ChildRef>, j: int, i: int)
    requires
        0 <= j < next.len(),
        match_of(prev, next, j) == Some(i),
    ensures
        0 <= i < prev.len(),
        prev[i].key == next[j].key,
        prev[i].key matches Some(k) ==> count_key(prev, k, i) == count_key(next, k, j),
        prev[i].key is None ==> count_unkeyed(prev, i) == count_unkeyed(next, j),
{
    match next[j].key {
        Some(k) => {
            lemma_count_key_mono(next, k, 0, j);
            lemma_find_key_props(prev, k, count_key(next, k, j), 0, i);
        },
        None => {
            lemma_count_unkeyed_mono(next, 0, j);
            lemma_find_unkeyed_props(prev, count_unkeyed(next, j), 0, i);
        },
    }
}

/// No two new children pair with the same previous child.
pub proof fn lemma_match_injective(prev: Seq<ChildRef>, next: Seq<ChildRef>, j1: int, j2: int, i: int)
    requires
        0 <= j1 < next.len(),
        0 <= j2 < next.len(),
        match_of(prev, next, j1) == Some(i),
        match_of(prev, next, j2) == Some(i),
    ensures
        j1 == j2,
{
    lemma_match_props(prev, next, j1, i);
    lemma_match_props(prev, next, j2, i);
    if j1 != j2 {
        let (lo, hi) = if j1 < j2 {
            (j1, j2)
        } else {
            (j2, j1)
        };
        match next[lo].key {
            Some(k) => {
                lemma_count_key_strict(next, k, lo, hi);
            },
            None => {
                lemma_count_unkeyed_strict(next, lo, hi);
            },
        }
    }
}

/// A previous child that some new child pairs with counts as matched.
pub proof fn lemma_match_implies_prev_matched(
    prev: Seq<ChildRef>,
    next: Seq<ChildRef>,
    j: int,
    i: int,
)
    requires
        0 <= j < next.len(),
        match_of(prev, next, j) == Some(i),
    ensures
        0 <= i < prev.len(),
        prev_matched(prev, next, i),
{
    lemma_match_props(prev, next, j, i);
    match next[j].key {
        Some(k) => {
            lemma_count_key_strict(next, k, j, next.len() as int);
        },
        None => {
            lemma_count_unkeyed_strict(next, j, next.len() as int);
        },
    }
}

/// Two child lists that agree pairwise: same keys, deep-equal kinds,
/// equal styles.
pub open spec fn children_identical(prev: Seq<ChildRef>, next: Seq<ChildRef>) -> bool {
    &&& prev.len() == next.len()
    &&& forall|j: int| 0 <= j < next.len() ==> child_same(#[trigger] prev[j], next[j])
}

/// Pairwise-identical lists have identical key counts on every prefix.
proof fn lemma_identical_counts(prev: Seq<ChildRef>, next: Seq<ChildRef>, k: u64, j: int)
    requires
        children_identical(prev, next),
        0 <= j <= next.len(),
    ensures
        count_key(prev, k, j) == count_key(next, k, j),
        count_unkeyed(prev, j) == count_unkeyed(next, j),
    decreases j,
{
    if j > 0 {
        lemma_identical_counts(prev, next, k, j - 1);
        assert(child_same(prev[j - 1], next[j - 1]));
    }
}

/// Under identical lists every child matches itself, in place.
proof fn lemma_identical_match_self(prev: Seq<ChildRef>, next: Seq<ChildRef>, j: int)
    requires
        children_identical(prev, next),
        0 <= j < next.len(),
    ensures
        match_of(prev, next, j) == Some(j),
{
    assert(child_same(prev[j], next[j]));
    match next[j].key {
        Some(k) => {
            lemma_identical_counts(prev, next, k, j);
            lemma_find_key_of_count(prev, k, j, 0);
        },
        None => {
            lemma_identical_counts(prev, next, 0, j);
            lemma_find_unkeyed_of_count(prev, j, 0);
        },
    }
}

/// When every new child contributes no operation, the new-side plan is
/// empty.
proof fn lemma_new_ops_empty(prev: Seq<ChildRef>, next: Seq<ChildRef>, j: int)
    requires
        0 <= j <= next.len(),
        forall|t: int| 0 <= t < j ==> op_for(prev, next, t) == Seq::<ChildOp>::empty(),
    ensures
        new_ops(prev, next, j) == Seq::<ChildOp>::empty(),
    decreases j,
{
    if j > 0 {
        lemma_new_ops_empty(prev, next, j - 1);
        assert(new_ops(prev, next, j) =~= Seq::<ChildOp>::empty());
    }
}

/// When every previous child is matched, no removals are emitted.
proof fn lemma_remove_ops_empty(prev: Seq<ChildRef>, next: Seq<ChildRef>, i: int)
    requires
        0 <= i <= prev.len(),
        forall|t: int| 0 <= t < i ==> prev_matched(prev, next, t),
    ensures
        remove_ops(prev, next, i) == Seq::<ChildOp>::empty(),
    decreases i,
{
    if i > 0 {
        lemma_remove_ops_empty(prev, next, i - 1);
        assert(remove_ops(prev, next, i) =~= Seq::<ChildOp>::empty());
    }
}

/// Idempotence: declaring a child list identical to the committed one
/// produces an empty plan — nothing is inserted, updated, reordered or
/// removed.
pub proof fn lemma_identical_children_empty_plan(prev: Seq<ChildRef>, next: Seq<ChildRef>)
    requires
        children_identical(prev, next),
    ensures
        child_ops(prev, next) == Seq::<ChildOp>::empty(),
{
    assert forall|t: int| 0 <= t < next.len() implies op_for(prev, next, t)
        == Seq::<ChildOp>::empty() by {
        lemma_identical_match_self(prev, next, t);
        assert(child_same(prev[t], next[t]));
        crate::widget::lemma_kind_eq_same_tag(prev[t].kind, next[t].kind);
    }
    lemma_new_ops_empty(prev, next, next.len() as int);
    assert forall|t: int| 0 <= t < prev.len() implies prev_matched(prev, next, t) by {
        lemma_identical_match_self(prev, next, t);
        lemma_match_implies_prev_matched(prev, next, t, t);
    }
    lemma_remove_ops_empty(prev, next, prev.len() as int);
    assert(child_ops(prev, next) =~= Seq::<ChildOp>::empty());
}

/// Every removal in the plan names an unmatched previous child.
proof fn lemma_remove_ops_only_unmatched(prev: Seq<ChildRef>, next: Seq<ChildRef>, i: int)
    requires
        0 <= i <= prev.len(),
        prev.len() <= usize::MAX,
    ensures
        forall|t: int|
            0 <= t < remove_ops(prev, next, i).len() ==> ((#[trigger] remove_ops(prev, next, i)[t])
                matches ChildOp::Remove { prev_idx } && !prev_matched(prev, next, prev_idx as int)
                && prev_idx < i),
    decreases i,
{
    if i > 0 {
        lemma_remove_ops_only_unmatched(prev, next, i - 1);
        let r0 = remove_ops(prev, next, i - 1);
        let r1 = remove_ops(prev, next, i);
        if prev_matched(prev, next, i - 1) {
            assert(r1 =~= r0);
        } else {
            assert forall|t: int|
                0 <= t < r1.len() implies ((#[trigger] r1[t]) matches ChildOp::Remove { prev_idx }
                && !prev_matched(prev, next, prev_idx as int) && prev_idx < i) by {
                if t < r0.len() {
                    assert(r1[t] == r0[t]);
                } else {
                    assert(r1[t] == ChildOp::Remove { prev_idx: (i - 1) as usize });
                }
            }
        }
    }
}

/// Every replace in the new-side plan names a matched pair whose kind
/// tags differ, and the new side never emits removals.
proof fn lemma_new_ops_shape(prev: Seq<ChildRef>, next: Seq<ChildRef>, j: int)
    requires
        0 <= j <= next.len(),
        prev.len() <= usize::MAX,
        next.len() <= usize::MAX,
    ensures
        forall|t: int|
            0 <= t < new_ops(prev, next, j).len() ==> match #[trigger] new_ops(prev, next, j)[t] {
                ChildOp::Replace { prev_idx, new_pos } => new_pos < j && match_of(
                    prev,
                    next,
                    new_pos as int,
                ) == Some(prev_idx as int) && kind_tag(prev[prev_idx as int].kind) != kind_tag(
                    next[new_pos as int].kind,
                ),
                ChildOp::Remove { .. } => false,
                _ => true,
            },
    decreases j,
{
    if j > 0 {
        lemma_new_ops_shape(prev, next, j - 1);
        let n0 = new_ops(prev, next, j - 1);
        let n1 = new_ops(prev, next, j);
        assert forall|t: int|
            0 <= t < n1.len() implies match #[trigger] n1[t] {
            ChildOp::Replace { prev_idx, new_pos } => new_pos < j && match_of(
                prev,
                next,
                new_pos as int,
            ) == Some(prev_idx as int) && kind_tag(prev[prev_idx as int].kind) != kind_tag(
                next[new_pos as int].kind,
            ),
            ChildOp::Remove { .. } => false,
            _ => true,
        } by {
            if t < n0.len() {
                assert(n1[t] == n0[t]);
            } else {
                assert(n1[t] == op_for(prev, next, j - 1)[t - n0.len()]);
                match match_of(prev, next, j - 1) {
                    Some(i) => {
                        lemma_match_props(prev, next, j - 1, i);
                    },
                    None => {},
                }
            }
        }
    }
}

/// Identity preservation: a previous child that a new child matches by
/// key, with an unchanged widget kind, is never removed and never
/// replaced by the plan — its committed node survives the frame.
pub proof fn lemma_identity_preserved(prev: Seq<ChildRef>, next: Seq<ChildRef>, j: int, i: int)
    requires
        prev.len() <= usize::MAX,
        next.len() <= usize::MAX,
        0 <= j < next.len(),
        match_of(prev, next, j) == Some(i),
        kind_tag(prev[i].kind) == kind_tag(next[j].kind),
    ensures
        forall|t: int|
            0 <= t < child_ops(prev, next).len() ==> match #[trigger] child_ops(prev, next)[t] {
                ChildOp::Remove { prev_idx } => prev_idx != i,
                ChildOp::Replace { prev_idx, .. } => prev_idx != i,
                _ => true,
            },
{
    lemma_match_implies_prev_matched(prev, next, j, i);
    lemma_new_ops_shape(prev, next, next.len() as int);
    lemma_remove_ops_only_unmatched(prev, next, prev.len() as int);
    let nops = new_ops(prev, next, next.len() as int);
    let rops = remove_ops(prev, next, prev.len() as int);
    assert forall|t: int| 0 <= t < child_ops(prev, next).len() implies match #[trigger] child_ops(
        prev,
        next,
    )[t] {
        ChildOp::Remove { prev_idx } => prev_idx != i,
        ChildOp::Replace { prev_idx, .. } => prev_idx != i,
        _ => true,
    } by {
        if t < nops.len() {
            assert(child_ops(prev, next)[t] == nops[t]);
            match nops[t] {
                ChildOp::Replace { prev_idx, new_pos } => {
                    if prev_idx as int == i {
                        lemma_match_injective(prev, next, j, new_pos as int, i);
                    }
                },
                _ => {},
            }
        } else {
            assert(child_ops(prev, next)[t] == rops[t - nops.len()]);
        }
    }
}

/// Reorder without churn: when the new children are a permutation of the
/// previous ones — every new child matches some previous child with
/// identical key, kind and style, and every previous child is matched —
/// the plan consists of reorders only: no insert, no remove, no replace,
/// no update.
pub proof fn lemma_reorder_without_churn(prev: Seq<ChildRef>, next: Seq<ChildRef>)
    requires
        forall|j: int|
            0 <= j < next.len() ==> (#[trigger] match_of(prev, next, j) matches Some(i)
                && child_same(prev[i], next[j])),
        forall|i: int| 0 <= i < prev.len() ==> prev_matched(prev, next, i),
    ensures
        forall|t: int|
            0 <= t < child_ops(prev, next).len() ==> (#[trigger] child_ops(prev, next)[t])
                matches ChildOp::Reorder { .. },
{
    assert forall|t: int, u: int|
        0 <= t < next.len() && 0 <= u < op_for(prev, next, t).len() implies (#[trigger] op_for(
        prev,
        next,
        t,
    )[u]) matches ChildOp::Reorder { .. } by {
        assert(match_of(prev, next, t) matches Some(i) && child_same(prev[i], next[t]));
        let i = match_of(prev, next, t)->Some_0;
        crate::widget::lemma_kind_eq_same_tag(prev[i].kind, next[t].kind);
    }
    lemma_remove_ops_empty(prev, next, prev.len() as int);
    lemma_new_ops_all_reorder(prev, next, next.len() as int);
    assert(child_ops(prev, next) =~= new_ops(prev, next, next.len() as int));
}

/// When each new child contributes at most a reorder, the accumulated
/// new-side plan holds reorders only.
proof fn lemma_new_ops_all_reorder(prev: Seq<ChildRef>, next: Seq<ChildRef>, j: int)
    requires
        0 <= j <= next.len(),
        forall|t: int, u: int|
            0 <= t < next.len() && 0 <= u < op_for(prev, next, t).len() ==> (#[trigger] op_for(
                prev,
                next,
                t,
            )[u]) matches ChildOp::Reorder { .. },
    ensures
        forall|t: int|
            0 <= t < new_ops(prev, next, j).len() ==> (#[trigger] new_ops(prev, next, j)[t])
                matches ChildOp::Reorder { .. },
    decreases j,
{
    if j > 0 {
        lemma_new_ops_all_reorder(prev, next, j - 1);
    }
}

} // verus!
