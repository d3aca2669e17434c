//! Offset tables around a chunk: concentric Chebyshev rings and the
//! per-view-distance lists of chunks that a client sees.

use vstd::prelude::*;

verus! {

/// The largest view distance that has an offset list.
pub const MAX_VIEW_DISTANCE: u8 = 32;

/// The largest Chebyshev radius that has a ring of its own; larger radii
/// are clamped to it.
pub const MAX_CHEBYSHEV_RADIUS: u8 = 48;

pub open spec fn abs(a: int) -> int {
    if a < 0 { -a } else { a }
}

/// Chebyshev (chessboard) length of an offset.
pub open spec fn cheb(dx: int, dy: int) -> int {
    if abs(dx) < abs(dy) { abs(dy) } else { abs(dx) }
}

/// Number of offsets at exactly Chebyshev radius `r`.
pub open spec fn ring_len(r: int) -> int {
    if r == 0 { 1 } else { 8 * r }
}

/// The `k`-th offset of the ring of radius `r`: first the top and bottom
/// rows, pairwise from left to right, then the left and right columns
/// without their corners, pairwise from top to bottom.
pub open spec fn ring_offset(r: int, k: int) -> (int, int) {
    if r == 0 {
        (0, 0)
    } else if k < 4 * r + 2 {
        (-r + k / 2, if k % 2 == 0 { -r } else { r })
    } else {
        let j = k - (4 * r + 2);
        (if j % 2 == 0 { -r } else { r }, -r + 1 + j / 2)
    }
}

/// Position of an offset of Chebyshev length `r` in the ring of radius `r`.
pub open spec fn ring_index(r: int, dx: int, dy: int) -> int {
    if r == 0 {
        0
    } else if dy == -r {
        2 * (dx + r)
    } else if dy == r {
        2 * (dx + r) + 1
    } else if dx == -r {
        4 * r + 2 + 2 * (dy + r - 1)
    } else {
        4 * r + 2 + 2 * (dy + r - 1) + 1
    }
}

/// Every offset of the ring of radius `r` has Chebyshev length `r`, and
/// the ring lists each such offset exactly once, at `ring_index`.
pub proof fn lemma_ring_offset(r: int, k: int)
    requires
        r >= 0,
        0 <= k < ring_len(r),
    ensures
        cheb(ring_offset(r, k).0, ring_offset(r, k).1) == r,
        ring_index(r, ring_offset(r, k).0, ring_offset(r, k).1) == k,
{
}

/// Every offset of Chebyshev length `r` appears in the ring of radius `r`.
pub proof fn lemma_ring_index(r: int, dx: int, dy: int)
    requires
        r >= 0,
        cheb(dx, dy) == r,
    ensures
        0 <= ring_index(r, dx, dy) < ring_len(r),
        ring_offset(r, ring_index(r, dx, dy)) == (dx, dy),
{
}

/// The radius of the ring that a lookup of `radius` gives.
pub open spec fn clamp_radius(radius: int) -> int {
    if radius <= MAX_CHEBYSHEV_RADIUS { radius } else { MAX_CHEBYSHEV_RADIUS as int }
}

pub open spec fn offset_is(v: (i8, i8), o: (int, int)) -> bool {
    v.0 as int == o.0 && v.1 as int == o.1
}

/// The ring of offsets at exactly Chebyshev radius `min(radius, 48)`, in the
/// order of `ring_offset`.
pub fn get_chebyshev_ring(radius: u8) -> (ring: Vec<(i8, i8)>)
    ensures
        ring.len() == ring_len(clamp_radius(radius as int)),
        forall|k: int|
            0 <= k < ring.len() ==> #[trigger] offset_is(ring@[k], ring_offset(clamp_radius(radius as int), k)),
{
    let r: i8 = if radius <= MAX_CHEBYSHEV_RADIUS { radius as i8 } else { MAX_CHEBYSHEV_RADIUS as i8 };
    let mut ring: Vec<(i8, i8)> = Vec::new();
    if r == 0 {
        ring.push((0, 0));
        return ring;
    }
    let mut x: i8 = -r;
    while x <= r
        invariant
            1 <= r <= 48,
            -r <= x <= r + 1,
            ring.len() == 2 * (x + r),
            forall|k: int| 0 <= k < ring.len() ==> #[trigger] offset_is(ring@[k], ring_offset(r as int, k)),
        decreases r + 1 - x,
    {
        ring.push((x, -r));
        ring.push((x, r));
        x = x + 1;
    }
    let mut z: i8 = -r + 1;
    while z <= r - 1
        invariant
            1 <= r <= 48,
            -r + 1 <= z <= r,
            ring.len() == 4 * r + 2 + 2 * (z + r - 1),
            forall|k: int| 0 <= k < ring.len() ==> #[trigger] offset_is(ring@[k], ring_offset(r as int, k)),
        decreases r - z,
    {
        ring.push((-r, z));
        ring.push((r, z));
        z = z + 1;
    }
    ring
}


/// The ring of radius `r`, as a sequence.
pub open spec fn ring_seq(r: int) -> Seq<(int, int)> {
    Seq::new(ring_len(r) as nat, |k: int| ring_offset(r, k))
}

/// All offsets within Chebyshev radius `r`, ring after ring from the centre.
pub open spec fn square_seq(r: int) -> Seq<(int, int)>
    decreases r,
{
    if r <= 0 {
        ring_seq(0)
    } else {
        square_seq(r - 1) + ring_seq(r)
    }
}

/// Integer view of a list of offsets.
pub open spec fn as_ints(v: Seq<(i8, i8)>) -> Seq<(int, int)> {
    v.map_values(|o: (i8, i8)| (o.0 as int, o.1 as int))
}

/// There are `(2r + 1)^2` offsets within Chebyshev radius `r`.
pub proof fn lemma_square_len(r: int)
    requires
        r >= 0,
    ensures
        square_seq(r).len() == (2 * r + 1) * (2 * r + 1),
    decreases r,
{
    if r > 0 {
        lemma_square_len(r - 1);
        assert(ring_seq(r).len() == 8 * r);
        let prev = square_seq(r - 1).len();
        assert(square_seq(r).len() == prev + 8 * r);
        assert(prev + 8 * r == (2 * r + 1) * (2 * r + 1)) by (nonlinear_arith)
            requires
                prev == (2 * (r - 1) + 1) * (2 * (r - 1) + 1),
        ;
    } else {
        assert(ring_seq(0).len() == 1);
        assert((2 * r + 1) * (2 * r + 1) == 1) by (nonlinear_arith)
            requires
                r == 0,
        ;
    }
}

/// The square of radius `r` holds exactly the offsets of Chebyshev length at
/// most `r`: each of its entries is one, and each one is among its entries.
pub proof fn lemma_square_contents(r: int, dx: int, dy: int)
    requires
        r >= 0,
    ensures
        forall|i: int| 0 <= i < square_seq(r).len() ==> cheb((#[trigger] square_seq(r)[i]).0, square_seq(r)[i].1) <= r,
        cheb(dx, dy) <= r ==> square_seq(r).contains((dx, dy)),
    decreases r,
{
    let s = square_seq(r);
    if r == 0 {
        assert forall|i: int| 0 <= i < s.len() implies cheb((#[trigger] s[i]).0, s[i].1) <= r by {
            lemma_ring_offset(0, i);
        }
        if cheb(dx, dy) <= 0 {
            assert(s[0] == (dx, dy));
        }
    } else {
        lemma_square_contents(r - 1, dx, dy);
        let a = square_seq(r - 1);
        let b = ring_seq(r);
        assert(s == a + b);
        assert forall|i: int| 0 <= i < s.len() implies cheb((#[trigger] s[i]).0, s[i].1) <= r by {
            if i < a.len() {
                assert(s[i] == a[i]);
            } else {
                assert(s[i] == b[i - a.len()]);
                lemma_ring_offset(r, i - a.len());
            }
        }
        if cheb(dx, dy) <= r {
            if cheb(dx, dy) < r {
                let i = choose|i: int| 0 <= i < a.len() && a[i] == (dx, dy);
                assert(s[i] == (dx, dy));
            } else {
                lemma_ring_index(r, dx, dy);
                let k = ring_index(r, dx, dy);
                assert(s[a.len() + k] == b[k]);
                assert(s[a.len() + k] == (dx, dy));
            }
        }
    }
}

/// Appends the ring of radius `r` to `out`.
fn push_ring(out: &mut Vec<(i8, i8)>, r: u8)
    requires
        r <= MAX_CHEBYSHEV_RADIUS,
    ensures
        as_ints(final(out)@) == as_ints(old(out)@) + ring_seq(r as int),
{
    let ring = get_chebyshev_ring(r);
    assert(clamp_radius(r as int) == r);
    let ghost start = out@;
    let mut j: usize = 0;
    while j < ring.len()
        invariant
            ring.len() == ring_len(r as int),
            forall|i: int| 0 <= i < ring.len() ==> #[trigger] offset_is(ring@[i], ring_offset(r as int, i)),
            0 <= j <= ring.len(),
            as_ints(out@) == as_ints(start) + ring_seq(r as int).take(j as int),
        decreases ring.len() - j,
    {
        let ghost before = out@;
        out.push(ring[j]);
        proof {
            assert(out@.drop_last() == before);
            assert(offset_is(ring@[j as int], ring_offset(r as int, j as int)));
            let ghost prev = out@.drop_last();
            assert(as_ints(before).len() == before.len());
            assert(as_ints(start).len() == start.len());
            assert(ring_seq(r as int).take(j as int).len() == j);
            assert(before.len() == start.len() + j);
            assert(as_ints(out@).len() == as_ints(start).len() + j + 1);
            assert forall|i: int| 0 <= i < as_ints(out@).len() implies #[trigger] as_ints(out@)[i] == (as_ints(start) + ring_seq(r as int).take(j + 1))[i] by {
                if i < as_ints(out@).len() - 1 {
                    assert(out@[i] == prev[i]);
                    assert(as_ints(prev)[i] == (as_ints(start) + ring_seq(r as int).take(j as int))[i]);
                }
            }
            assert(as_ints(out@) =~= as_ints(start) + ring_seq(r as int).take(j + 1));
        }
        j = j + 1;
    }
    assert(ring_seq(r as int).take(j as int) =~= ring_seq(r as int));
}

/// All offsets within Chebyshev radius `min(radius, 48)`, ring after ring
/// from the centre.
pub fn get_chebyshev_square(radius: u8) -> (square: Vec<(i8, i8)>)
    ensures
        as_ints(square@) == square_seq(clamp_radius(radius as int)),
{
    let r: u8 = if radius <= MAX_CHEBYSHEV_RADIUS { radius } else { MAX_CHEBYSHEV_RADIUS };
    let mut square: Vec<(i8, i8)> = Vec::new();
    push_ring(&mut square, 0);
    assert(as_ints(square@) =~= square_seq(0));
    let mut i: u8 = 1;
    while i <= r
        invariant
            r <= MAX_CHEBYSHEV_RADIUS,
            1 <= i <= r + 1,
            as_ints(square@) == square_seq(i - 1),
        decreases r + 1 - i,
    {
        push_ring(&mut square, i);
        i = i + 1;
    }
    square
}

/// The flat table of all ring offsets up to some radius, with the bounds of
/// each ring and of each square within it.
pub struct ChebyshevLayout {
    pub offsets: Vec<(i8, i8)>,
    pub ring_bounds: Vec<(usize, usize)>,
    pub square_bounds: Vec<usize>,
}

/// The table of all rings up to `MAX_CHEBYSHEV_RADIUS`: ring `r` occupies
/// `offsets[ring_bounds[r].0 .. ring_bounds[r].1]`, and the square of radius
/// `r` occupies `offsets[.. square_bounds[r]]`.
pub fn chebyshev_layout() -> (layout: ChebyshevLayout)
    ensures
        as_ints(layout.offsets@) == square_seq(MAX_CHEBYSHEV_RADIUS as int),
        layout.ring_bounds.len() == MAX_CHEBYSHEV_RADIUS + 1,
        layout.square_bounds.len() == MAX_CHEBYSHEV_RADIUS + 1,
        forall|r: int|
            0 <= r <= MAX_CHEBYSHEV_RADIUS ==> #[trigger] layout.ring_bounds@[r] == (
                if r == 0 { 0 } else { square_seq(r - 1).len() } as usize,
                square_seq(r).len() as usize,
            ),
        forall|r: int| 0 <= r <= MAX_CHEBYSHEV_RADIUS ==> #[trigger] layout.square_bounds@[r] == square_seq(r).len(),
{
    let mut offsets: Vec<(i8, i8)> = Vec::new();
    let mut ring_bounds: Vec<(usize, usize)> = Vec::new();
    let mut square_bounds: Vec<usize> = Vec::new();
    let mut r: u8 = 0;
    while r <= MAX_CHEBYSHEV_RADIUS
        invariant
            0 <= r <= MAX_CHEBYSHEV_RADIUS + 1,
            as_ints(offsets@) == if r == 0 { Seq::empty() } else { square_seq(r - 1) },
            ring_bounds.len() == r,
            square_bounds.len() == r,
            forall|q: int|
                0 <= q < r ==> #[trigger] ring_bounds@[q] == (
                    if q == 0 { 0 } else { square_seq(q - 1).len() } as usize,
                    square_seq(q).len() as usize,
                ),
            forall|q: int| 0 <= q < r ==> #[trigger] square_bounds@[q] == square_seq(q).len(),
        decreases MAX_CHEBYSHEV_RADIUS + 1 - r,
    {
        proof {
            lemma_square_len(r as int);
        }
        let start = offsets.len();
        push_ring(&mut offsets, r);
        let end = offsets.len();
        proof {
            assert(as_ints(offsets@).len() == offsets@.len());
            if r == 0 {
                assert(as_ints(offsets@) =~= square_seq(0));
            } else {
                assert(as_ints(offsets@) == square_seq(r as int));
            }
        }
        ring_bounds.push((start, end));
        square_bounds.push(end);
        r = r + 1;
    }
    ChebyshevLayout { offsets, ring_bounds, square_bounds }
}


/// How far a coordinate reaches past the two rows next to the centre.
pub open spec fn rel(a: int) -> int {
    if abs(a) <= 2 { 0 } else { abs(a) - 2 }
}

/// Whether the chunk at offset `(x, z)` is within view distance `d`.
pub open spec fn in_view(d: int, x: int, z: int) -> bool {
    rel(x) * rel(x) + rel(z) * rel(z) < d * d
}

/// Sort key of an offset: its squared Euclidean length.
pub open spec fn view_key(o: (i8, i8)) -> int {
    o.0 * o.0 + o.1 * o.1
}

/// The first `n` cells of row `z` of the view square of distance `d`, from
/// left to right, that are in view.
pub open spec fn view_row(d: int, z: int, n: int) -> Seq<(i8, i8)>
    decreases n,
{
    if n <= 0 {
        Seq::empty()
    } else {
        let x = -(d + 2) + n - 1;
        if in_view(d, x, z) {
            view_row(d, z, n - 1).push((x as i8, z as i8))
        } else {
            view_row(d, z, n - 1)
        }
    }
}

/// The first `n` rows of the view square of distance `d`, from top to bottom.
pub open spec fn view_grid(d: int, n: int) -> Seq<(i8, i8)>
    decreases n,
{
    if n <= 0 {
        Seq::empty()
    } else {
        view_grid(d, n - 1) + view_row(d, -(d + 2) + n - 1, 2 * d + 5)
    }
}

/// The offsets in view at distance `d`, in scan order; none below distance 2.
pub open spec fn view_candidates(d: int) -> Seq<(i8, i8)> {
    if d < 2 { Seq::empty() } else { view_grid(d, 2 * d + 5) }
}

/// The elements of `s` whose key is `k`, in their order in `s`.
pub open spec fn with_key(s: Seq<(i8, i8)>, k: int) -> Seq<(i8, i8)>
    decreases s.len(),
{
    if s.len() == 0 {
        s
    } else if view_key(s.last()) == k {
        with_key(s.drop_last(), k).push(s.last())
    } else {
        with_key(s.drop_last(), k)
    }
}

/// The elements of `s` with keys below `n`, by increasing key, equal keys in
/// their order in `s` (a stable sort by key).
pub open spec fn sorted_by_key(s: Seq<(i8, i8)>, n: int) -> Seq<(i8, i8)>
    decreases n,
{
    if n <= 0 {
        Seq::empty()
    } else {
        sorted_by_key(s, n - 1) + with_key(s, n - 1)
    }
}

/// One more than the largest key of the view square of distance `d`.
pub open spec fn view_key_bound(d: int) -> int {
    2 * (d + 2) * (d + 2) + 1
}

/// The chunks a client at view distance `d` sees, nearest first.
pub open spec fn view_offsets(d: int) -> Seq<(i8, i8)> {
    sorted_by_key(view_candidates(d), view_key_bound(d))
}

/// The offsets in view at distance `dist`, in scan order.
fn view_scan(dist: u8) -> (cands: Vec<(i8, i8)>)
    requires
        dist <= MAX_VIEW_DISTANCE,
    ensures
        cands@ == view_candidates(dist as int),
        forall|i: int|
            0 <= i < cands.len() ==> abs((#[trigger] cands@[i]).0 as int) <= dist + 2 && abs(cands@[i].1 as int)
                <= dist + 2,
{
    let mut cands: Vec<(i8, i8)> = Vec::new();
    if dist < 2 {
        return cands;
    }
    let d: i32 = dist as i32;
    let w: i32 = 2 * d + 5;
    let mut zi: i32 = 0;
    while zi < w
        invariant
            2 <= d <= 32,
            w == 2 * d + 5,
            0 <= zi <= w,
            cands@ == view_grid(d as int, zi as int),
            forall|i: int|
                0 <= i < cands.len() ==> abs((#[trigger] cands@[i]).0 as int) <= d + 2 && abs(cands@[i].1 as int)
                    <= d + 2,
        decreases w - zi,
    {
        let z: i32 = -(d + 2) + zi;
        let rz: i32 = if z < 0 { -z } else { z };
        let rz: i32 = if rz <= 2 { 0 } else { rz - 2 };
        let ghost row_start = cands@;
        let mut xi: i32 = 0;
        while xi < w
            invariant
                2 <= d <= 32,
                w == 2 * d + 5,
                0 <= zi < w,
                z == -(d + 2) + zi,
                rz == rel(z as int),
                0 <= xi <= w,
                row_start == view_grid(d as int, zi as int),
                cands@ == row_start + view_row(d as int, z as int, xi as int),
                forall|i: int|
                    0 <= i < cands.len() ==> abs((#[trigger] cands@[i]).0 as int) <= d + 2 && abs(cands@[i].1 as int)
                        <= d + 2,
            decreases w - xi,
        {
            let x: i32 = -(d + 2) + xi;
            let rx: i32 = if x < 0 { -x } else { x };
            let rx: i32 = if rx <= 2 { 0 } else { rx - 2 };
            assert(rx * rx <= 32 * 32 && rz * rz <= 32 * 32 && d * d <= 32 * 32) by (nonlinear_arith)
                requires
                    0 <= rx <= 32,
                    0 <= rz <= 32,
                    0 <= d <= 32,
            ;
            let ghost before = cands@;
            if rx * rx + rz * rz < d * d {
                cands.push((x as i8, z as i8));
            }
            proof {
                assert(cands@ =~= row_start + view_row(d as int, z as int, xi + 1));
            }
            xi = xi + 1;
        }
        proof {
            assert(cands@ =~= view_grid(d as int, zi + 1));
        }
        zi = zi + 1;
    }
    cands
}


/// A copy of a list of offsets.
fn copy_offsets(v: &Vec<(i8, i8)>) -> (c: Vec<(i8, i8)>)
    ensures
        c@ == v@,
{
    let mut c: Vec<(i8, i8)> = Vec::new();
    let mut i: usize = 0;
    while i < v.len()
        invariant
            i <= v.len(),
            c@ == v@.take(i as int),
        decreases v.len() - i,
    {
        c.push(v[i]);
        assert(c@ =~= v@.take(i + 1));
        i = i + 1;
    }
    assert(v@.take(i as int) =~= v@);
    c
}

/// Sorts offsets by squared length, keeping offsets of equal length in their
/// order, given that every key is below `bound`.
fn sort_by_view_key(cands: &Vec<(i8, i8)>, bound: usize) -> (sorted: Vec<(i8, i8)>)
    requires
        forall|i: int| 0 <= i < cands.len() ==> 0 <= view_key(#[trigger] cands@[i]) < bound,
        bound <= 4096,
    ensures
        sorted@ == sorted_by_key(cands@, bound as int),
{
    let mut buckets: Vec<Vec<(i8, i8)>> = Vec::new();
    let mut b: usize = 0;
    while b < bound
        invariant
            b <= bound,
            buckets.len() == b,
            forall|k: int| 0 <= k < b ==> (#[trigger] buckets@[k])@ == Seq::<(i8, i8)>::empty(),
        decreases bound - b,
    {
        buckets.push(Vec::new());
        b = b + 1;
    }
    proof {
        assert forall|k: int| 0 <= k < bound implies (#[trigger] buckets@[k])@ == with_key(cands@.take(0), k) by {
            assert(cands@.take(0).len() == 0);
        }
    }
    let mut i: usize = 0;
    while i < cands.len()
        invariant
            forall|q: int| 0 <= q < cands.len() ==> 0 <= view_key(#[trigger] cands@[q]) < bound,
            bound <= 4096,
            i <= cands.len(),
            buckets.len() == bound,
            forall|k: int| 0 <= k < bound ==> (#[trigger] buckets@[k])@ == with_key(cands@.take(i as int), k),
        decreases cands.len() - i,
    {
        let c = cands[i];
        assert(view_key(cands@[i as int]) < bound);
        let a: i32 = c.0 as i32;
        let e: i32 = c.1 as i32;
        assert(a * a <= 16384 && e * e <= 16384 && a * a >= 0 && e * e >= 0) by (nonlinear_arith)
            requires
                -128 <= a <= 127,
                -128 <= e <= 127,
        ;
        let key: usize = (a * a + e * e) as usize;
        let mut bucket = copy_offsets(&buckets[key]);
        bucket.push(c);
        let ghost old_buckets = buckets@;
        buckets.set(key, bucket);
        proof {
            let t = cands@.take(i + 1);
            assert(t.drop_last() =~= cands@.take(i as int));
            assert(t.last() == c);
            assert forall|k: int| 0 <= k < bound implies (#[trigger] buckets@[k])@ == with_key(t, k) by {
                if k != key {
                    assert(buckets@[k] == old_buckets[k]);
                }
            }
        }
        i = i + 1;
    }
    assert(cands@.take(cands.len() as int) =~= cands@);
    let mut sorted: Vec<(i8, i8)> = Vec::new();
    let mut k: usize = 0;
    while k < bound
        invariant
            k <= bound,
            buckets.len() == bound,
            forall|q: int| 0 <= q < bound ==> (#[trigger] buckets@[q])@ == with_key(cands@, q),
            sorted@ == sorted_by_key(cands@, k as int),
        decreases bound - k,
    {
        let bucket = &buckets[k];
        let ghost start = sorted@;
        let mut j: usize = 0;
        while j < bucket.len()
            invariant
                j <= bucket.len(),
                sorted@ == start + bucket@.take(j as int),
            decreases bucket.len() - j,
        {
            sorted.push(bucket[j]);
            assert(sorted@ =~= start + bucket@.take(j + 1));
            j = j + 1;
        }
        assert(bucket@.take(j as int) =~= bucket@);
        k = k + 1;
    }
    sorted
}

/// The chunks a client at view distance `dist` sees, as offsets from its
/// chunk, nearest first.
pub fn chunk_view_offsets(dist: u8) -> (offsets: Vec<(i8, i8)>)
    requires
        dist <= MAX_VIEW_DISTANCE,
    ensures
        offsets@ == view_offsets(dist as int),
{
    let cands = view_scan(dist);
    let d: usize = dist as usize;
    assert(2 * (d + 2) * (d + 2) <= 2 * 34 * 34) by (nonlinear_arith)
        requires
            d <= 32,
    ;
    let bound: usize = 2 * (d + 2) * (d + 2) + 1;
    assert(bound == view_key_bound(dist as int) && bound <= 4096) by (nonlinear_arith)
        requires
            d == dist,
            dist <= 32,
            bound == 2 * (d + 2) * (d + 2) + 1,
    ;
    assert forall|i: int| 0 <= i < cands.len() implies 0 <= view_key(#[trigger] cands@[i]) < bound by {
        let x = cands@[i].0 as int;
        let z = cands@[i].1 as int;
        assert(0 <= x * x + z * z < 2 * (d + 2) * (d + 2) + 1) by (nonlinear_arith)
            requires
                abs(x) <= d + 2,
                abs(z) <= d + 2,
        ;
    }
    sort_by_view_key(&cands, bound)
}

/// The view offsets of every view distance from 0 to `MAX_VIEW_DISTANCE`.
pub fn chunk_view_lut() -> (lut: Vec<Vec<(i8, i8)>>)
    ensures
        lut.len() == MAX_VIEW_DISTANCE + 1,
        forall|d: int| 0 <= d <= MAX_VIEW_DISTANCE ==> (#[trigger] lut@[d])@ == view_offsets(d),
{
    let mut lut: Vec<Vec<(i8, i8)>> = Vec::new();
    let mut d: u8 = 0;
    while d <= MAX_VIEW_DISTANCE
        invariant
            d <= MAX_VIEW_DISTANCE + 1,
            lut.len() == d,
            forall|q: int| 0 <= q < d ==> (#[trigger] lut@[q])@ == view_offsets(q),
        decreases MAX_VIEW_DISTANCE + 1 - d,
    {
        lut.push(chunk_view_offsets(d));
        d = d + 1;
    }
    lut
}


proof fn lemma_with_key_keys(s: Seq<(i8, i8)>, k: int)
    ensures
        forall|i: int| 0 <= i < with_key(s, k).len() ==> view_key(#[trigger] with_key(s, k)[i]) == k,
    decreases s.len(),
{
    if s.len() > 0 {
        lemma_with_key_keys(s.drop_last(), k);
        let p = with_key(s.drop_last(), k);
        if view_key(s.last()) == k {
            assert forall|i: int| 0 <= i < with_key(s, k).len() implies view_key(#[trigger] with_key(s, k)[i]) == k by {
                if i < p.len() {
                    assert(with_key(s, k)[i] == p[i]);
                }
            }
        }
    }
}

proof fn lemma_sorted_keys(s: Seq<(i8, i8)>, n: int)
    requires
        n >= 0,
    ensures
        forall|i: int| 0 <= i < sorted_by_key(s, n).len() ==> 0 <= view_key(#[trigger] sorted_by_key(s, n)[i]) < n,
        forall|i: int, j: int|
            0 <= i <= j < sorted_by_key(s, n).len() ==> view_key(#[trigger] sorted_by_key(s, n)[i]) <= view_key(
                #[trigger] sorted_by_key(s, n)[j],
            ),
    decreases n,
{
    if n > 0 {
        lemma_sorted_keys(s, n - 1);
        lemma_with_key_keys(s, n - 1);
        let a = sorted_by_key(s, n - 1);
        let b = with_key(s, n - 1);
        let c = sorted_by_key(s, n);
        assert(c == a + b);
        assert forall|i: int| 0 <= i < c.len() implies 0 <= view_key(#[trigger] c[i]) < n by {
            if i < a.len() {
                assert(c[i] == a[i]);
            } else {
                assert(c[i] == b[i - a.len()]);
            }
        }
        assert forall|i: int, j: int| 0 <= i <= j < c.len() implies view_key(#[trigger] c[i]) <= view_key(
            #[trigger] c[j],
        ) by {
            if j < a.len() {
                assert(c[i] == a[i] && c[j] == a[j]);
            } else if i < a.len() {
                assert(c[i] == a[i] && c[j] == b[j - a.len()]);
            } else {
                assert(c[i] == b[i - a.len()] && c[j] == b[j - a.len()]);
            }
        }
    }
}

/// The chunks of every view distance come nearest first: their squared
/// lengths never decrease along the list.
pub proof fn lemma_view_offsets_sorted(d: int)
    requires
        d >= 0,
    ensures
        forall|i: int, j: int|
            0 <= i <= j < view_offsets(d).len() ==> view_key(#[trigger] view_offsets(d)[i]) <= view_key(
                #[trigger] view_offsets(d)[j],
            ),
{
    assert(view_key_bound(d) >= 0) by (nonlinear_arith)
        requires
            d >= 0,
    ;
    lemma_sorted_keys(view_candidates(d), view_key_bound(d));
}

} // verus!
