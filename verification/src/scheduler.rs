//! The streaming scheduler: which chunks should be materialized around
//! the player, and what to load or unload when that target changes.
//!
//! The target is a discretized disc of chunk coordinates around the
//! player's current chunk, each annotated with a detail tier picked by
//! integer Euclidean distance. The visible set tracks what the renderer
//! currently holds; an update diffs it against the freshly computed disc
//! and reports exactly what to despawn and what to spawn.
use vstd::prelude::*;

verus! {

/// A chunk coordinate with the detail tier assigned to it.
pub type VisibleEntry = ((i32, i32), u32);

/// The player's current chunk coordinate.
#[derive(Clone, Copy, Debug, PartialEq, Eq)]
pub struct CurrentChunk(pub (i32, i32));

/// The configured render radius, in chunks.
#[derive(Clone, Copy, Debug, PartialEq, Eq, Structural)]
pub struct RenderDistance(pub u32);

/// Squared length of an integer offset.
pub open spec fn dist_sq(dx: int, dy: int) -> int {
    dx * dx + dy * dy
}

/// Whether `(x, y)` lies in the closed disc of radius `radius` around
/// `(cx, cy)`.
pub open spec fn circle_member(cx: int, cy: int, radius: int, x: int, y: int) -> bool {
    dist_sq(x - cx, y - cy) <= radius * radius
}

/// The detail tier for a chunk whose squared distance from the player's
/// chunk is `d2`: tier 0 (full detail) strictly inside `lod_radius`,
/// tier 2 strictly inside twice that, tier 4 beyond. A distance exactly
/// equal to a boundary falls into the coarser tier.
pub open spec fn spec_lod_tier(d2: int, lod_radius: int) -> u32 {
    if d2 < lod_radius * lod_radius {
        0u32
    } else if d2 < (2 * lod_radius) * (2 * lod_radius) {
        2u32
    } else {
        4u32
    }
}

/// Floor of the square root of `d`.
pub fn isqrt(d: u64) -> (r: u64)
    requires
        d < 0x1_0000_0000_0000,
    ensures
        r * r <= d < (r + 1) * (r + 1),
{
    let mut r: u64 = 0;
    loop
        invariant
            d < 0x1_0000_0000_0000,
            r * r <= d,
        ensures
            r * r <= d < (r + 1) * (r + 1),
        decreases d - r * r,
    {
        proof {
            assert(r < 0x100_0000) by (nonlinear_arith)
                requires
                    r * r <= d,
                    d < 0x1_0000_0000_0000,
            ;
            assert((r + 1) * (r + 1) <= 0x1_0000_0000_0000) by (nonlinear_arith)
                requires
                    r < 0x100_0000,
            ;
            assert((r + 1) * (r + 1) > r * r) by (nonlinear_arith);
        }
        let s = r + 1;
        if s * s <= d {
            r = s;
        } else {
            break;
        }
    }
    r
}

/// The floor of a square root sits below a bound exactly when the operand
/// sits below the bound's square.
proof fn lemma_floor_sqrt_lt(d2: int, s: int, bound: int)
    requires
        0 <= s,
        0 <= bound,
        s * s <= d2 < (s + 1) * (s + 1),
    ensures
        (s < bound) <==> (d2 < bound * bound),
{
    assert((s < bound) ==> (d2 < bound * bound)) by (nonlinear_arith)
        requires
            0 <= s && 0 <= bound && d2 < (s + 1) * (s + 1),
    ;
    assert((d2 < bound * bound) ==> (s < bound)) by (nonlinear_arith)
        requires
            0 <= s && 0 <= bound && s * s <= d2,
    ;
}

/// An offset pair whose squared length is bounded by a square is bounded
/// componentwise in absolute value.
proof fn lemma_abs_from_square(a: int, b: int, r: int)
    requires
        0 <= r,
        a * a + b * b <= r * r,
    ensures
        -r <= a <= r,
        -r <= b <= r,
{
    assert(-r <= a <= r && -r <= b <= r) by (nonlinear_arith)
        requires
            0 <= r && a * a + b * b <= r * r,
    ;
}

/// The detail tier for a squared chunk distance: the integer distance is
/// the floor square root, compared against the configured radius.
pub fn lod_tier(d2: u64, lod_radius: u32) -> (t: u32)
    requires
        d2 < 0x1_0000_0000_0000,
    ensures
        t == spec_lod_tier(d2 as int, lod_radius as int),
{
    let distance = isqrt(d2);
    proof {
        lemma_floor_sqrt_lt(d2 as int, distance as int, lod_radius as int);
        lemma_floor_sqrt_lt(d2 as int, distance as int, 2 * (lod_radius as int));
    }
    if distance < lod_radius as u64 {
        0
    } else if distance < 2 * (lod_radius as u64) {
        2
    } else {
        4
    }
}

/// All chunk coordinates in the closed disc of radius `radius` around
/// `(cx, cy)`, each with its detail tier: exactly the `(x, y)` with
/// `(x - cx)^2 + (y - cy)^2 <= radius^2`, each once, in some order.
pub fn get_circle_area(cx: i32, cy: i32, radius: i32, lod_radius: u32) -> (out: Vec<VisibleEntry>)
    requires
        0 <= radius <= 46340,
        i32::MIN <= cx - radius,
        cx + radius <= i32::MAX,
        i32::MIN <= cy - radius,
        cy + radius <= i32::MAX,
    ensures
        forall|i: int| 0 <= i < out@.len() ==> circle_member(
            cx as int,
            cy as int,
            radius as int,
            (#[trigger] out@[i]).0.0 as int,
            out@[i].0.1 as int,
        ) && out@[i].1 == spec_lod_tier(
            dist_sq(out@[i].0.0 - cx, out@[i].0.1 - cy),
            lod_radius as int,
        ),
        forall|x: i32, y: i32| circle_member(cx as int, cy as int, radius as int, x as int, y as int)
            ==> #[trigger] out@.contains(
            ((x, y), spec_lod_tier(dist_sq(x - cx, y - cy), lod_radius as int)),
        ),
        forall|i: int, j: int| 0 <= i < j < out@.len() ==> (#[trigger] out@[i]).0 != (
        #[trigger] out@[j]).0,
{
    let mut out: Vec<VisibleEntry> = Vec::new();
    let mut dy: i32 = -radius;
    proof {
        assert forall|x: i32, y: i32|
            circle_member(cx as int, cy as int, radius as int, x as int, y as int) && (y as int)
                - cy < dy as int implies #[trigger] out@.contains(
            ((x, y), spec_lod_tier(dist_sq(x - cx, y - cy), lod_radius as int)),
        ) by {
            lemma_abs_from_square(x - cx, y - cy, radius as int);
        }
    }
    while dy <= radius
        invariant
            0 <= radius <= 46340,
            i32::MIN <= cx - radius,
            cx + radius <= i32::MAX,
            i32::MIN <= cy - radius,
            cy + radius <= i32::MAX,
            -radius <= dy <= radius + 1,
            forall|i: int| 0 <= i < out@.len() ==> circle_member(
                cx as int,
                cy as int,
                radius as int,
                (#[trigger] out@[i]).0.0 as int,
                out@[i].0.1 as int,
            ) && out@[i].1 == spec_lod_tier(
                dist_sq(out@[i].0.0 - cx, out@[i].0.1 - cy),
                lod_radius as int,
            ) && out@[i].0.1 - cy < dy,
            forall|x: i32, y: i32| circle_member(
                cx as int,
                cy as int,
                radius as int,
                x as int,
                y as int,
            ) && y - cy < dy ==> #[trigger] out@.contains(
                ((x, y), spec_lod_tier(dist_sq(x - cx, y - cy), lod_radius as int)),
            ),
            forall|i: int, j: int| 0 <= i < j < out@.len() ==> (#[trigger] out@[i]).0 != (
            #[trigger] out@[j]).0,
        decreases radius + 1 - dy,
    {
        let mut dx: i32 = -radius;
        proof {
            assert forall|x: i32, y: i32|
                circle_member(cx as int, cy as int, radius as int, x as int, y as int) && ((
                y as int) - cy < dy as int || ((y as int) - cy == dy as int && (x as int) - cx < dx
                    as int)) implies #[trigger] out@.contains(
                ((x, y), spec_lod_tier(dist_sq(x - cx, y - cy), lod_radius as int)),
            ) by {
                lemma_abs_from_square(x - cx, y - cy, radius as int);
            }
        }
        while dx <= radius
            invariant
                0 <= radius <= 46340,
                i32::MIN <= cx - radius,
                cx + radius <= i32::MAX,
                i32::MIN <= cy - radius,
                cy + radius <= i32::MAX,
                -radius <= dy <= radius,
                -radius <= dx <= radius + 1,
                forall|i: int| 0 <= i < out@.len() ==> circle_member(
                    cx as int,
                    cy as int,
                    radius as int,
                    (#[trigger] out@[i]).0.0 as int,
                    out@[i].0.1 as int,
                ) && out@[i].1 == spec_lod_tier(
                    dist_sq(out@[i].0.0 - cx, out@[i].0.1 - cy),
                    lod_radius as int,
                ) && (out@[i].0.1 - cy < dy || (out@[i].0.1 - cy == dy && out@[i].0.0 - cx
                    < dx)),
                forall|x: i32, y: i32| circle_member(
                    cx as int,
                    cy as int,
                    radius as int,
                    x as int,
                    y as int,
                ) && (y - cy < dy || (y - cy == dy && x - cx < dx)) ==> #[trigger] out@.contains(
                    ((x, y), spec_lod_tier(dist_sq(x - cx, y - cy), lod_radius as int)),
                ),
                forall|i: int, j: int| 0 <= i < j < out@.len() ==> (#[trigger] out@[i]).0 != (
                #[trigger] out@[j]).0,
            decreases radius + 1 - dx,
        {
            proof {
                assert(0 <= (dx as int) * (dx as int) < 0x1_0000_0000 && 0 <= (dy as int) * (
                dy as int) < 0x1_0000_0000 && 0 <= (radius as int) * (radius as int)
                    < 0x1_0000_0000) by (nonlinear_arith)
                    requires
                        -46341 < dx < 46341 && -46341 < dy < 46341 && 0 <= radius <= 46340,
                ;
            }
            let d2 = (dx as i64) * (dx as i64) + (dy as i64) * (dy as i64);
            let rsq = (radius as i64) * (radius as i64);
            proof {
                assert(d2 == dist_sq(dx as int, dy as int) && 0 <= d2 < 0x1_0000_0000_0000 && rsq
                    == (radius as int) * (radius as int)) by (nonlinear_arith)
                    requires
                        -46341 < dx < 46341 && -46341 < dy < 46341 && 0 <= radius <= 46340 && d2
                            == (dx as i64) * (dx as i64) + (dy as i64) * (dy as i64) && rsq == (
                        radius as i64) * (radius as i64),
                ;
            }
            if d2 <= rsq {
                let tier = lod_tier(d2 as u64, lod_radius);
                let x = cx + dx;
                let y = cy + dy;
                let ghost old_out = out@;
                out.push(((x, y), tier));
                proof {
                    assert(out@ == old_out.push(((x, y), tier)));
                    assert(x - cx == dx as int && y - cy == dy as int);
                    assert forall|x0: i32, y0: i32|
                        circle_member(cx as int, cy as int, radius as int, x0 as int, y0 as int)
                            && (y0 - cy < dy || (y0 - cy == dy && x0 - cx
                            < dx + 1)) implies #[trigger] out@.contains(
                        ((x0, y0), spec_lod_tier(dist_sq(x0 - cx, y0 - cy), lod_radius as int)),
                    ) by {
                        let entry = (
                            (x0, y0),
                            spec_lod_tier(dist_sq(x0 - cx, y0 - cy), lod_radius as int),
                        );
                        if y0 == y && x0 == x {
                            assert(out@[out@.len() - 1] == entry);
                        } else {
                            assert(old_out.contains(entry));
                            let k = choose|k: int| 0 <= k < old_out.len() && old_out[k] == entry;
                            assert(out@[k] == entry);
                        }
                    }
                }
            } else {
                proof {
                    assert forall|x0: i32, y0: i32|
                        circle_member(cx as int, cy as int, radius as int, x0 as int, y0 as int)
                            && (y0 - cy < dy || (y0 - cy == dy && x0 - cx
                            < dx + 1)) implies #[trigger] out@.contains(
                        ((x0, y0), spec_lod_tier(dist_sq(x0 - cx, y0 - cy), lod_radius as int)),
                    ) by {
                        if y0 - cy == dy && x0 - cx == dx as int {
                            assert(dist_sq(x0 - cx, y0 - cy) <= (radius as int) * (radius as int));
                            assert(false);
                        }
                    }
                }
            }
            dx = dx + 1;
        }
        proof {
            assert forall|x0: i32, y0: i32|
                circle_member(cx as int, cy as int, radius as int, x0 as int, y0 as int) && y0 - cy
                    < dy + 1 implies #[trigger] out@.contains(
                ((x0, y0), spec_lod_tier(dist_sq(x0 - cx, y0 - cy), lod_radius as int)),
            ) by {
                lemma_abs_from_square(x0 - cx, y0 - cy, radius as int);
            }
        }
        dy = dy + 1;
    }
    proof {
        assert forall|x0: i32, y0: i32|
            circle_member(cx as int, cy as int, radius as int, x0 as int, y0 as int) implies (
        y0 as int) - cy < (dy as int) by {
            lemma_abs_from_square(x0 - cx, y0 - cy, radius as int);
        }
    }
    out
}

/// No two entries share a chunk coordinate.
pub open spec fn distinct_coords(s: Seq<VisibleEntry>) -> bool {
    forall|i: int, j: int| 0 <= i < j < s.len() ==> (#[trigger] s[i]).0 != (#[trigger] s[j]).0
}

/// `out` holds exactly the entries of `from` that are absent from
/// `minus`.
pub open spec fn exact_difference(
    from: Seq<VisibleEntry>,
    minus: Seq<VisibleEntry>,
    out: Seq<VisibleEntry>,
) -> bool {
    &&& forall|p: VisibleEntry| #[trigger] out.contains(p) ==> from.contains(p) && !minus.contains(
        p,
    )
    &&& forall|p: VisibleEntry| #[trigger] from.contains(p) && !minus.contains(p)
        ==> out.contains(p)
}

/// Linear scan for an entry.
fn has_entry(v: &Vec<VisibleEntry>, p: VisibleEntry) -> (b: bool)
    ensures
        b == v@.contains(p),
{
    let mut i: usize = 0;
    while i < v.len()
        invariant
            i <= v@.len(),
            forall|j: int| 0 <= j < i ==> v@[j] != p,
        decreases v@.len() - i,
    {
        let ((x, y), t) = v[i];
        if x == p.0.0 && y == p.0.1 && t == p.1 {
            return true;
        }
        i = i + 1;
    }
    proof {
        if v@.contains(p) {
            let k = choose|k: int| 0 <= k < v@.len() && v@[k] == p;
        }
    }
    false
}

/// The set of chunks the renderer currently materializes, each with its
/// assigned detail tier.
pub struct VisibleSet {
    entries: Vec<VisibleEntry>,
}

impl VisibleSet {
    pub closed spec fn spec_entries(self) -> Seq<VisibleEntry> {
        self.entries@
    }

    /// The structural invariant: one entry per chunk coordinate.
    pub open spec fn wf(self) -> bool {
        distinct_coords(self.spec_entries())
    }

    /// Start with nothing visible.
    pub fn new() -> (v: VisibleSet)
        ensures
            v.wf(),
            v.spec_entries() == Seq::<VisibleEntry>::empty(),
    {
        VisibleSet { entries: Vec::new() }
    }

    /// The current entries.
    pub fn visible(&self) -> (v: &Vec<VisibleEntry>)
        ensures
            v@ == self.spec_entries(),
    {
        &self.entries
    }

    /// Converge on a freshly computed target set: afterwards exactly the
    /// target is visible, and the returned pair says what changed — first
    /// everything that was visible and no longer is (to despawn), then
    /// everything newly visible (to spawn). An entry whose tier changed
    /// appears in both.
    pub fn update(&mut self, target: &Vec<VisibleEntry>) -> (changes: (
        Vec<VisibleEntry>,
        Vec<VisibleEntry>,
    ))
        requires
            distinct_coords(target@),
        ensures
            final(self).wf(),
            final(self).spec_entries() == target@,
            exact_difference(old(self).spec_entries(), target@, changes.0@),
            exact_difference(target@, old(self).spec_entries(), changes.1@),
    {
        let ghost orig = self.entries@;
        let mut unload: Vec<VisibleEntry> = Vec::new();
        let mut i: usize = 0;
        while i < self.entries.len()
            invariant
                self.entries@ == orig,
                distinct_coords(target@),
                i <= orig.len(),
                forall|p: VisibleEntry| #[trigger] unload@.contains(p) ==> orig.contains(p)
                    && !target@.contains(p),
                forall|j: int| 0 <= j < i && !target@.contains(#[trigger] orig[j])
                    ==> unload@.contains(orig[j]),
            decreases orig.len() - i,
        {
            let e = self.entries[i];
            let ghost before = unload@;
            let absent = !has_entry(target, e);
            if absent {
                unload.push(e);
            }
            proof {
                broadcast use vstd::seq_lib::lemma_seq_contains_after_push;

                assert(orig[i as int] == e);
                assert(orig.contains(e));
                if absent {
                    assert(unload@ == before.push(e));
                }
                assert forall|j: int|
                    0 <= j < i + 1 && !target@.contains(#[trigger] orig[j]) implies unload@
                    .contains(orig[j]) by {
                    if j < i {
                        assert(before.contains(orig[j]));
                    }
                }
            }
            i = i + 1;
        }
        let mut load: Vec<VisibleEntry> = Vec::new();
        let mut i: usize = 0;
        while i < target.len()
            invariant
                self.entries@ == orig,
                distinct_coords(target@),
                i <= target@.len(),
                forall|p: VisibleEntry| #[trigger] load@.contains(p) ==> target@.contains(p)
                    && !orig.contains(p),
                forall|j: int| 0 <= j < i && !orig.contains(#[trigger] target@[j])
                    ==> load@.contains(target@[j]),
            decreases target@.len() - i,
        {
            let e = target[i];
            let ghost before = load@;
            let absent = !has_entry(&self.entries, e);
            if absent {
                load.push(e);
            }
            proof {
                broadcast use vstd::seq_lib::lemma_seq_contains_after_push;

                assert(target@[i as int] == e);
                assert(target@.contains(e));
                if absent {
                    assert(load@ == before.push(e));
                }
                assert forall|j: int|
                    0 <= j < i + 1 && !orig.contains(#[trigger] target@[j]) implies load@.contains(
                    target@[j],
                ) by {
                    if j < i {
                        assert(before.contains(target@[j]));
                    }
                }
            }
            i = i + 1;
        }
        let mut fresh: Vec<VisibleEntry> = Vec::new();
        let mut i: usize = 0;
        while i < target.len()
            invariant
                self.entries@ == orig,
                i <= target@.len(),
                fresh@ =~= target@.subrange(0, i as int),
            decreases target@.len() - i,
        {
            fresh.push(target[i]);
            i = i + 1;
        }
        proof {
            assert(fresh@ =~= target@);
        }
        self.entries = fresh;
        proof {
            assert(orig == old(self).spec_entries());
            assert forall|p: VisibleEntry|
                #[trigger] orig.contains(p) && !target@.contains(p) implies unload@.contains(
                p,
            ) by {
                let k = choose|k: int| 0 <= k < orig.len() && orig[k] == p;
                assert(!target@.contains(orig[k]));
            }
            assert forall|p: VisibleEntry|
                #[trigger] target@.contains(p) && !orig.contains(p) implies load@.contains(p) by {
                let k = choose|k: int| 0 <= k < target@.len() && target@[k] == p;
                assert(!orig.contains(target@[k]));
            }
        }
        (unload, load)
    }
}

/// Once the visible set has converged on a target, updating toward that
/// same target again changes nothing: both halves of the reported diff
/// are empty.
pub proof fn lemma_update_converged(
    visible: Seq<VisibleEntry>,
    target: Seq<VisibleEntry>,
    unload: Seq<VisibleEntry>,
    load: Seq<VisibleEntry>,
)
    requires
        visible == target,
        exact_difference(visible, target, unload),
        exact_difference(target, visible, load),
    ensures
        unload == Seq::<VisibleEntry>::empty(),
        load == Seq::<VisibleEntry>::empty(),
{
    if unload.len() > 0 {
        assert(unload.contains(unload[0]));
    }
    if load.len() > 0 {
        assert(load.contains(load[0]));
    }
    assert(unload =~= Seq::<VisibleEntry>::empty());
    assert(load =~= Seq::<VisibleEntry>::empty());
}

} // verus!

