//! The layout engine's sizing passes: fixed and percentage units
//! resolve against the parent's content box (the measure pass), the
//! remaining space is split among stretch siblings proportionally to
//! weight with the integer remainder assigned to the last
//! positively-weighted sibling so the shares sum exactly to the
//! available space, and siblings are then placed one after the other
//! (the place pass). All sizes are unsigned whole pixels, so every
//! computed width and height is non-negative by construction, whatever
//! the stretch weights.

use vstd::prelude::*;
use crate::style::Unit;
use crate::geom::{spec_sat_add, sat_add};

verus! {

/// Sum of a sequence of weights, as a mathematical integer.
pub open spec fn sum_u32(s: Seq<u32>) -> int
    decreases s.len(),
{
    if s.len() == 0 {
        0
    } else {
        sum_u32(s.drop_last()) + s.last()
    }
}

pub proof fn lemma_sum_push(s: Seq<u32>, x: u32)
    ensures
        sum_u32(s.push(x)) == sum_u32(s) + x,
{
    assert(s.push(x).drop_last() =~= s);
}

pub proof fn lemma_sum_nonneg(s: Seq<u32>)
    ensures
        sum_u32(s) >= 0,
    decreases s.len(),
{
    if s.len() > 0 {
        lemma_sum_nonneg(s.drop_last());
    }
}

/// Sum of the weights of `s[0..k]`.
pub open spec fn prefix_sum(s: Seq<u32>, k: int) -> int
    decreases k,
{
    if k <= 0 {
        0
    } else {
        prefix_sum(s, k - 1) + s[k - 1]
    }
}

/// A prefix sum only looks at entries below `k`.
proof fn lemma_prefix_sum_take(s: Seq<u32>, k: int)
    requires
        0 <= k < s.len(),
    ensures
        prefix_sum(s.drop_last(), k) == prefix_sum(s, k),
    decreases k,
{
    if k > 0 {
        lemma_prefix_sum_take(s, k - 1);
    }
}

pub proof fn lemma_prefix_sum_full(s: Seq<u32>)
    ensures
        prefix_sum(s, s.len() as int) == sum_u32(s),
    decreases s.len(),
{
    if s.len() > 0 {
        lemma_prefix_sum_full(s.drop_last());
        if s.len() > 1 {
            lemma_prefix_sum_take(s, s.len() - 1);
        }
        assert(prefix_sum(s, s.len() as int) == prefix_sum(s, s.len() - 1) + s[s.len() - 1]);
        assert(prefix_sum(s, s.len() - 1) == sum_u32(s.drop_last()));
        assert(s[s.len() - 1] == s.last());
    }
}

pub proof fn lemma_prefix_sum_mono(s: Seq<u32>, j: int, k: int)
    requires
        0 <= j <= k <= s.len(),
    ensures
        prefix_sum(s, j) <= prefix_sum(s, k),
    decreases k - j,
{
    if j < k {
        lemma_prefix_sum_mono(s, j, k - 1);
    }
}

/// Any single weight is at most the sum of all weights.
pub proof fn lemma_entry_le_sum(s: Seq<u32>, i: int)
    requires
        0 <= i < s.len(),
    ensures
        s[i] <= sum_u32(s),
    decreases s.len(),
{
    lemma_sum_nonneg(s.drop_last());
    if i < s.len() - 1 {
        lemma_entry_le_sum(s.drop_last(), i);
    }
}

/// Index of the last sibling with a positive weight, or -1 when every
/// weight is zero.
pub open spec fn last_stretch(s: Seq<u32>) -> int
    decreases s.len(),
{
    if s.len() == 0 {
        -1
    } else if s.last() > 0 {
        s.len() - 1
    } else {
        last_stretch(s.drop_last())
    }
}

pub proof fn lemma_last_stretch_props(s: Seq<u32>)
    ensures
        -1 <= last_stretch(s) < s.len(),
        last_stretch(s) >= 0 ==> s[last_stretch(s)] > 0,
        forall|i: int| last_stretch(s) < i < s.len() ==> s[i] == 0,
        sum_u32(s) > 0 ==> last_stretch(s) >= 0,
    decreases s.len(),
{
    if s.len() > 0 {
        lemma_last_stretch_props(s.drop_last());
        if s.last() == 0 {
            assert(sum_u32(s) == sum_u32(s.drop_last()));
            assert forall|i: int| last_stretch(s) < i < s.len() implies s[i] == 0 by {
                if i < s.len() - 1 {
                    assert(s.drop_last()[i] == s[i]);
                }
            }
        }
    }
}

/// The floor of weight `w`'s proportional share of `avail` out of `total`.
pub open spec fn floor_share(avail: u32, w: u32, total: int) -> int {
    (avail * w) / total
}

/// Pixels handed to siblings `s[0..k]` other than the remainder sibling:
/// each positively-weighted one gets its floor share, the rest get zero.
pub open spec fn alloc_before(avail: u32, s: Seq<u32>, k: int) -> int
    decreases k,
{
    if k <= 0 {
        0
    } else {
        alloc_before(avail, s, k - 1) + if s[k - 1] > 0 && k - 1 != last_stretch(s) {
            floor_share(avail, s[k - 1], sum_u32(s))
        } else {
            0
        }
    }
}

/// The exact share of sibling `i`: zero for zero weight, the remainder
/// for the last positively-weighted sibling, the floor share otherwise.
pub open spec fn stretch_share(avail: u32, s: Seq<u32>, i: int) -> int {
    if s[i] == 0 {
        0
    } else if i == last_stretch(s) {
        avail - alloc_before(avail, s, s.len() as int)
    } else {
        floor_share(avail, s[i], sum_u32(s))
    }
}

proof fn lemma_floor_share_bounds(avail: u32, w: u32, total: int)
    requires
        total > 0,
        w <= total,
    ensures
        0 <= floor_share(avail, w, total) <= avail,
{
    assert(0 <= (avail * w) / total <= avail) by (nonlinear_arith)
        requires
            total > 0,
            0 <= w <= total,
            avail >= 0,
    ;
}

/// `alloc_before * total` never exceeds `avail * prefix_sum`.
proof fn lemma_alloc_bound(avail: u32, s: Seq<u32>, k: int)
    requires
        sum_u32(s) > 0,
        0 <= k <= s.len(),
    ensures
        alloc_before(avail, s, k) >= 0,
        alloc_before(avail, s, k) * sum_u32(s) <= avail * prefix_sum(s, k),
    decreases k,
{
    let t = sum_u32(s);
    if k > 0 {
        lemma_alloc_bound(avail, s, k - 1);
        let a0 = alloc_before(avail, s, k - 1);
        let p0 = prefix_sum(s, k - 1);
        if s[k - 1] > 0 && k - 1 != last_stretch(s) {
            let f = floor_share(avail, s[k - 1], t);
            assert(f >= 0 && f * t <= avail * s[k - 1]) by (nonlinear_arith)
                requires
                    t > 0,
                    avail >= 0,
                    s[k - 1] >= 0,
                    f == (avail * s[k - 1]) / t,
            ;
            assert((a0 + f) * t <= avail * (p0 + s[k - 1])) by (nonlinear_arith)
                requires
                    a0 * t <= avail * p0,
                    f * t <= avail * s[k - 1],
            ;
        } else {
            assert(avail * p0 <= avail * (p0 + s[k - 1])) by (nonlinear_arith)
                requires
                    avail >= 0,
                    s[k - 1] >= 0,
            ;
        }
    }
}

/// What is handed out ahead of the remainder sibling fits inside `avail`.
proof fn lemma_alloc_le_avail(avail: u32, s: Seq<u32>, k: int)
    requires
        sum_u32(s) > 0,
        0 <= k <= s.len(),
    ensures
        0 <= alloc_before(avail, s, k) <= avail,
{
    let t = sum_u32(s);
    lemma_alloc_bound(avail, s, k);
    lemma_prefix_sum_mono(s, k, s.len() as int);
    lemma_prefix_sum_full(s);
    let a = alloc_before(avail, s, k);
    assert(avail * prefix_sum(s, k) <= avail * t) by (nonlinear_arith)
        requires
            avail >= 0,
            prefix_sum(s, k) <= t,
    ;
    assert(a <= avail) by (nonlinear_arith)
        requires
            t > 0,
            a * t <= avail * t,
    ;
}

/// Past the remainder sibling nothing more is allotted.
proof fn lemma_alloc_stable(avail: u32, s: Seq<u32>, k: int)
    requires
        sum_u32(s) > 0,
        last_stretch(s) < k <= s.len(),
        0 <= k,
    ensures
        alloc_before(avail, s, k) == alloc_before(avail, s, s.len() as int),
    decreases s.len() - k,
{
    lemma_last_stretch_props(s);
    if k < s.len() {
        lemma_alloc_stable(avail, s, k + 1);
    }
}

/// Sum of the shares of siblings `s[0..k]`.
pub open spec fn shares_sum(avail: u32, s: Seq<u32>, k: int) -> int
    decreases k,
{
    if k <= 0 {
        0
    } else {
        shares_sum(avail, s, k - 1) + stretch_share(avail, s, k - 1)
    }
}

/// The running share sum splits into the floor allotments plus, once the
/// remainder sibling has been passed, the remainder itself.
proof fn lemma_shares_sum_split(avail: u32, s: Seq<u32>, k: int)
    requires
        sum_u32(s) > 0,
        0 <= k <= s.len(),
    ensures
        shares_sum(avail, s, k) == alloc_before(avail, s, k) + if last_stretch(s) < k {
            avail - alloc_before(avail, s, s.len() as int)
        } else {
            0
        },
    decreases k,
{
    lemma_last_stretch_props(s);
    if k > 0 {
        lemma_shares_sum_split(avail, s, k - 1);
    }
}

/// Bounds on the running share sum.
proof fn lemma_shares_le_avail(avail: u32, s: Seq<u32>, k: int)
    requires
        sum_u32(s) > 0,
        0 <= k <= s.len(),
    ensures
        0 <= shares_sum(avail, s, k) <= avail,
{
    lemma_shares_sum_split(avail, s, k);
    lemma_alloc_le_avail(avail, s, k);
    lemma_alloc_le_avail(avail, s, s.len() as int);
    lemma_last_stretch_props(s);
    if last_stretch(s) < k {
        lemma_alloc_stable(avail, s, k);
    }
}

/// With a positive total weight the shares sum exactly to `avail`.
pub proof fn lemma_shares_sum_to_avail(avail: u32, s: Seq<u32>)
    requires
        sum_u32(s) > 0,
    ensures
        shares_sum(avail, s, s.len() as int) == avail,
{
    lemma_last_stretch_props(s);
    lemma_shares_sum_split(avail, s, s.len() as int);
}

/// Distributes `avail` pixels among stretch siblings with the given
/// weights. Each positively-weighted sibling receives the floor of its
/// proportional share except the last, which absorbs the integer
/// remainder, so the shares sum exactly to `avail`; zero-weight siblings
/// receive zero.
pub fn distribute_stretch(avail: u32, weights: &Vec<u32>) -> (r: Vec<u32>)
    ensures
        r@.len() == weights@.len(),
        forall|i: int| 0 <= i < r@.len() ==> r@[i] == stretch_share(avail, weights@, i),
        forall|i: int| 0 <= i < r@.len() ==> r@[i] <= avail,
        sum_u32(weights@) > 0 ==> sum_u32(r@) == avail,
        sum_u32(weights@) == 0 ==> sum_u32(r@) == 0,
{
    let ghost s = weights@;
    let ghost tot = sum_u32(s);

    // Total weight, wide enough that no length cap is needed.
    let mut total: u128 = 0;
    let mut t: usize = 0;
    while t < weights.len()
        invariant
            0 <= t <= weights@.len(),
            weights@ == s,
            total == prefix_sum(s, t as int),
            total <= t * (u32::MAX as int),
        decreases weights@.len() - t,
    {
        total = total + weights[t] as u128;
        t = t + 1;
    }
    proof {
        lemma_prefix_sum_full(s);
        lemma_sum_nonneg(s);
    }

    // Index of the last positively-weighted sibling, if any.
    let mut last: usize = 0;
    let mut has_last: bool = false;
    let mut u: usize = 0;
    while u < weights.len()
        invariant
            0 <= u <= weights@.len(),
            weights@ == s,
            has_last <==> last_stretch(s.take(u as int)) >= 0,
            has_last ==> last == last_stretch(s.take(u as int)),
        decreases weights@.len() - u,
    {
        proof {
            assert(s.take(u as int + 1).drop_last() =~= s.take(u as int));
        }
        if weights[u] > 0 {
            last = u;
            has_last = true;
        }
        u = u + 1;
    }
    proof {
        assert(s.take(s.len() as int) =~= s);
    }

    let mut r: Vec<u32> = Vec::new();
    let mut handed: u32 = 0;
    let mut i: usize = 0;
    while i < weights.len()
        invariant
            0 <= i <= weights@.len(),
            weights@ == s,
            total == tot,
            tot == sum_u32(s),
            has_last <==> last_stretch(s) >= 0,
            has_last ==> last == last_stretch(s),
            r@.len() == i,
            forall|j: int| 0 <= j < i ==> r@[j] == stretch_share(avail, s, j),
            forall|j: int| 0 <= j < i ==> r@[j] <= avail,
            sum_u32(r@) == shares_sum(avail, s, i as int),
            handed == shares_sum(avail, s, i as int),
            handed <= avail,
        decreases weights@.len() - i,
    {
        let w = weights[i];
        let share: u32;
        if w == 0 {
            share = 0;
            assert(share == stretch_share(avail, s, i as int));
        } else if has_last && i == last {
            proof {
                lemma_last_stretch_props(s);
                lemma_entry_le_sum(s, i as int);
                // Everything handed so far is exactly the floor allotments.
                lemma_shares_sum_split(avail, s, i as int);
                assert(alloc_before(avail, s, i as int + 1) == alloc_before(avail, s, i as int));
                lemma_alloc_stable(avail, s, i as int + 1);
            }
            share = avail - handed;
            assert(share == stretch_share(avail, s, i as int));
        } else {
            proof {
                lemma_entry_le_sum(s, i as int);
                lemma_last_stretch_props(s);
                assert(tot > 0);
                assert(total > 0);
                lemma_floor_share_bounds(avail, w, tot);
                assert(avail * w <= (u32::MAX as int) * (u32::MAX as int)) by (nonlinear_arith)
                    requires
                        avail <= u32::MAX,
                        w <= u32::MAX,
                ;
            }
            let wide: u128 = (avail as u128) * (w as u128) / total;
            proof {
                assert(wide == floor_share(avail, w, tot));
            }
            share = wide as u32;
            assert(share == stretch_share(avail, s, i as int));
        }
        proof {
            lemma_sum_push(r@, share);
            if tot > 0 {
                lemma_shares_le_avail(avail, s, i as int + 1);
            } else {
                lemma_last_stretch_props(s);
            }
        }
        r.push(share);
        handed = handed + share;
        i = i + 1;
    }
    proof {
        if tot > 0 {
            lemma_shares_sum_to_avail(avail, s);
        } else {
            lemma_shares_sum_zero(avail, s, s.len() as int);
        }
    }
    r
}

/// With an all-zero total weight every share is zero.
proof fn lemma_shares_sum_zero(avail: u32, s: Seq<u32>, k: int)
    requires
        sum_u32(s) == 0,
        0 <= k <= s.len(),
    ensures
        shares_sum(avail, s, k) == 0,
    decreases k,
{
    if k > 0 {
        lemma_shares_sum_zero(avail, s, k - 1);
        lemma_entry_le_sum(s, k - 1);
        assert(s[k - 1] == 0);
    }
}

/// The size a fixed or percentage unit resolves to against the parent's
/// content-box size; a stretch unit measures as zero here and is sized
/// by distribution instead.
pub open spec fn spec_resolve(u: Unit, avail: u32) -> int {
    match u {
        Unit::Px(v) => v as int,
        Unit::Percent(p) => if (avail * p) / 100 <= u32::MAX {
            (avail * p) / 100
        } else {
            u32::MAX as int
        },
        Unit::Stretch(_) => 0,
    }
}

/// Resolves one unit against the available size.
pub fn resolve_unit(u: &Unit, avail: u32) -> (r: u32)
    ensures
        r == spec_resolve(*u, avail),
{
    match u {
        Unit::Px(v) => *v,
        Unit::Percent(p) => {
            proof {
                assert(avail * *p <= (u32::MAX as int) * (u32::MAX as int)) by (nonlinear_arith)
                    requires
                        avail <= u32::MAX,
                        *p <= u32::MAX,
                ;
            }
            let wide: u64 = (avail as u64) * (*p as u64) / 100;
            if wide <= u32::MAX as u64 {
                wide as u32
            } else {
                u32::MAX
            }
        },
        Unit::Stretch(_) => 0,
    }
}

/// The stretch weight of a unit: zero for fixed and percentage units.
pub open spec fn spec_weight(u: Unit) -> u32 {
    match u {
        Unit::Stretch(w) => w,
        _ => 0,
    }
}

/// The weights of a sibling list, non-stretch siblings weighing zero.
pub open spec fn weights_of(units: Seq<Unit>) -> Seq<u32> {
    units.map_values(|u: Unit| spec_weight(u))
}

/// Total pixels the fixed and percentage siblings measure to, clamped
/// at `u32::MAX`.
pub open spec fn spec_measured(units: Seq<Unit>, avail: u32, k: int) -> int
    decreases k,
{
    if k <= 0 {
        0
    } else {
        let prev = spec_measured(units, avail, k - 1);
        if prev + spec_resolve(units[k - 1], avail) <= u32::MAX {
            prev + spec_resolve(units[k - 1], avail)
        } else {
            u32::MAX as int
        }
    }
}

/// The space left for stretch siblings after the measure pass.
pub open spec fn spec_remaining(units: Seq<Unit>, avail: u32) -> int {
    if spec_measured(units, avail, units.len() as int) <= avail {
        avail - spec_measured(units, avail, units.len() as int)
    } else {
        0
    }
}

/// The two-pass sizing of one parent's children along its main axis:
/// fixed and percentage siblings resolve directly (measure pass), then
/// the remaining space is distributed among stretch siblings by weight,
/// the integer remainder going to the last stretch sibling.
pub fn layout_children(units: &Vec<Unit>, avail: u32) -> (r: Vec<u32>)
    ensures
        r@.len() == units@.len(),
        forall|i: int|
            0 <= i < r@.len() ==> r@[i] == (if units@[i] matches Unit::Stretch(_) {
                stretch_share(spec_remaining(units@, avail) as u32, weights_of(units@), i)
            } else {
                spec_resolve(units@[i], avail)
            }),
{
    // Measure pass: resolve the fixed and percentage siblings.
    let mut measured: u32 = 0;
    let mut i: usize = 0;
    while i < units.len()
        invariant
            0 <= i <= units@.len(),
            measured == spec_measured(units@, avail, i as int),
        decreases units@.len() - i,
    {
        let v = resolve_unit(&units[i], avail);
        if measured <= u32::MAX - v {
            measured = measured + v;
        } else {
            measured = u32::MAX;
        }
        i = i + 1;
    }
    let remaining: u32 = if measured <= avail {
        avail - measured
    } else {
        0
    };

    // Weight vector for the distribution pass.
    let mut weights: Vec<u32> = Vec::new();
    let mut j: usize = 0;
    while j < units.len()
        invariant
            0 <= j <= units@.len(),
            weights@.len() == j,
            forall|t: int| 0 <= t < j ==> weights@[t] == spec_weight(units@[t]),
        decreases units@.len() - j,
    {
        let w = match units[j] {
            Unit::Stretch(w) => w,
            _ => 0,
        };
        weights.push(w);
        j = j + 1;
    }
    proof {
        assert(weights@ =~= weights_of(units@));
    }
    let shares = distribute_stretch(remaining, &weights);

    // Place the per-sibling sizes.
    let mut r: Vec<u32> = Vec::new();
    let mut t: usize = 0;
    while t < units.len()
        invariant
            0 <= t <= units@.len(),
            shares@.len() == units@.len(),
            weights@ == weights_of(units@),
            remaining == spec_remaining(units@, avail),
            forall|q: int|
                0 <= q < shares@.len() ==> shares@[q] == stretch_share(remaining, weights@, q),
            r@.len() == t,
            forall|q: int|
                0 <= q < t ==> r@[q] == (if units@[q] matches Unit::Stretch(_) {
                    stretch_share(spec_remaining(units@, avail) as u32, weights_of(units@), q)
                } else {
                    spec_resolve(units@[q], avail)
                }),
        decreases units@.len() - t,
    {
        let v = match units[t] {
            Unit::Stretch(_) => shares[t],
            _ => resolve_unit(&units[t], avail),
        };
        r.push(v);
        t = t + 1;
    }
    r
}

/// The pen position of child `i` when siblings are placed one after the
/// other inside the parent's content box, each wrapped in its margin:
/// offsets are relative to the content box and saturate rather than
/// wrap.
pub open spec fn spec_child_offset(sizes: Seq<u32>, margins: Seq<u32>, i: int) -> u32
    decreases i,
{
    if i <= 0 {
        if 0 < margins.len() {
            margins[0]
        } else {
            0
        }
    } else {
        let prev_end = spec_sat_add(
            spec_sat_add(spec_child_offset(sizes, margins, i - 1), sizes[i - 1]),
            margins[i - 1],
        );
        if i < margins.len() {
            spec_sat_add(prev_end, margins[i])
        } else {
            prev_end
        }
    }
}

/// The place pass: each child's main-axis offset inside the parent's
/// content box, given the sizes from the measure/distribute passes and
/// the per-child margins.
pub fn place_children(sizes: &Vec<u32>, margins: &Vec<u32>) -> (offs: Vec<u32>)
    requires
        margins@.len() == sizes@.len(),
    ensures
        offs@.len() == sizes@.len(),
        forall|i: int|
            0 <= i < offs@.len() ==> offs@[i] == spec_child_offset(sizes@, margins@, i),
{
    let mut offs: Vec<u32> = Vec::new();
    let mut i: usize = 0;
    let mut cur: u32 = 0;
    while i < sizes.len()
        invariant
            0 <= i <= sizes@.len(),
            margins@.len() == sizes@.len(),
            offs@.len() == i,
            forall|t: int| 0 <= t < i ==> offs@[t] == spec_child_offset(sizes@, margins@, t),
            i > 0 ==> cur == spec_sat_add(
                spec_sat_add(spec_child_offset(sizes@, margins@, i - 1), sizes@[i - 1]),
                margins@[i - 1],
            ),
            i == 0 ==> cur == 0,
        decreases sizes@.len() - i,
    {
        let off = sat_add(cur, margins[i]);
        offs.push(off);
        cur = sat_add(sat_add(off, sizes[i]), margins[i]);
        i = i + 1;
    }
    offs
}

} // verus!
