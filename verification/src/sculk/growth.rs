//! Sculk growth rules: sensor and shrieker placement above sculk.

use vstd::prelude::*;
use crate::block_pos::{shifted, BlockPos};
use crate::sculk::{lget, lis_water, palette_valid, BlockKind, BlockState, LevelModel, SculkLevel};

verus! {

/// Half-width of the scan for nearby growths.
pub const GROWTH_CHECK_RADIUS: i32 = 4;

/// Height of the scan for nearby growths above the position.
pub const GROWTH_CHECK_HEIGHT: i32 = 2;

/// Most nearby growths that still allow another one.
pub const MAX_NEARBY_GROWTHS: i32 = 2;

/// A sculk sensor or shrieker (calibrated sensors do not count).
pub open spec fn is_growth(m: LevelModel, p: BlockPos) -> bool {
    lget(m, p) matches Some(s) && (s.block == BlockKind::SculkSensor || s.block == BlockKind::SculkShrieker)
}

/// Growths in the first `n` cells of the column `(dx, dz)`, from `dy = 0` up.
pub open spec fn column_growths(m: LevelModel, pos: BlockPos, dx: int, dz: int, n: int) -> int
    decreases n,
{
    if n <= 0 {
        0
    } else {
        column_growths(m, pos, dx, dz, n - 1) + if is_growth(m, shifted(pos, dx, n - 1, dz)) { 1int } else { 0 }
    }
}

/// Growths in the first `n` columns of the row `dx`, from `dz = -4` on.
pub open spec fn row_growths(m: LevelModel, pos: BlockPos, dx: int, n: int) -> int
    decreases n,
{
    if n <= 0 {
        0
    } else {
        row_growths(m, pos, dx, n - 1) + column_growths(
            m,
            pos,
            dx,
            -GROWTH_CHECK_RADIUS + n - 1,
            GROWTH_CHECK_HEIGHT + 1,
        )
    }
}

/// Growths in the first `n` rows of the scan box, from `dx = -4` on.
pub open spec fn box_growths(m: LevelModel, pos: BlockPos, n: int) -> int
    decreases n,
{
    if n <= 0 {
        0
    } else {
        box_growths(m, pos, n - 1) + row_growths(m, pos, -GROWTH_CHECK_RADIUS + n - 1, 2 * GROWTH_CHECK_RADIUS + 1)
    }
}

/// The block above `pos` is air, or a water block holding water.
pub open spec fn spec_above_open(m: LevelModel, pos: BlockPos) -> bool {
    let above = shifted(pos, 0, 1, 0);
    match lget(m, above) {
        None => false,
        Some(a) => a.is_air || (a.block == BlockKind::Water && lis_water(m, above)),
    }
}

/// Every position of the scan for nearby growths around `pos` exists.
pub open spec fn growth_scan_fits(pos: BlockPos) -> bool {
    &&& i32::MIN + GROWTH_CHECK_RADIUS <= pos.x <= i32::MAX - GROWTH_CHECK_RADIUS
    &&& pos.y <= i32::MAX - GROWTH_CHECK_HEIGHT
    &&& i32::MIN + GROWTH_CHECK_RADIUS <= pos.z <= i32::MAX - GROWTH_CHECK_RADIUS
}

/// A growth can go above `pos` when the block above is air or a water block
/// holding water, and at most two growths stand within 4 blocks sideways and
/// 0 to 2 blocks up.
pub open spec fn spec_can_place_growth(m: LevelModel, pos: BlockPos) -> bool {
    spec_above_open(m, pos) && box_growths(m, pos, 2 * GROWTH_CHECK_RADIUS + 1) <= MAX_NEARBY_GROWTHS
}

proof fn lemma_column_mono(m: LevelModel, pos: BlockPos, dx: int, dz: int, a: int, b: int)
    requires
        0 <= a <= b,
    ensures
        0 <= column_growths(m, pos, dx, dz, a) <= column_growths(m, pos, dx, dz, b),
    decreases b,
{
    if a < b {
        lemma_column_mono(m, pos, dx, dz, a, b - 1);
    } else if a > 0 {
        lemma_column_mono(m, pos, dx, dz, a - 1, a - 1);
    }
}

proof fn lemma_row_mono(m: LevelModel, pos: BlockPos, dx: int, a: int, b: int)
    requires
        0 <= a <= b,
    ensures
        0 <= row_growths(m, pos, dx, a) <= row_growths(m, pos, dx, b),
    decreases b,
{
    if a < b {
        lemma_row_mono(m, pos, dx, a, b - 1);
        lemma_column_mono(m, pos, dx, -GROWTH_CHECK_RADIUS + b - 1, 0, GROWTH_CHECK_HEIGHT + 1);
    } else if a > 0 {
        lemma_row_mono(m, pos, dx, a - 1, a - 1);
        lemma_column_mono(m, pos, dx, -GROWTH_CHECK_RADIUS + a - 1, 0, GROWTH_CHECK_HEIGHT + 1);
    }
}

proof fn lemma_box_mono(m: LevelModel, pos: BlockPos, a: int, b: int)
    requires
        0 <= a <= b,
    ensures
        0 <= box_growths(m, pos, a) <= box_growths(m, pos, b),
    decreases b,
{
    if a < b {
        lemma_box_mono(m, pos, a, b - 1);
        lemma_row_mono(m, pos, -GROWTH_CHECK_RADIUS + b - 1, 0, 2 * GROWTH_CHECK_RADIUS + 1);
    } else if a > 0 {
        lemma_box_mono(m, pos, a - 1, a - 1);
        lemma_row_mono(m, pos, -GROWTH_CHECK_RADIUS + a - 1, 0, 2 * GROWTH_CHECK_RADIUS + 1);
    }
}

/// What a random growth places at `pos` for a roll of
/// `next_bounded_i32(11)`: a shrieker on 0, a sensor otherwise, holding
/// water (a water source) where the position holds water.
pub open spec fn spec_random_growth_state(m: LevelModel, pos: BlockPos, roll: i32, is_world_gen: bool) -> BlockState {
    let base = if roll == 0 {
        BlockState { can_summon: is_world_gen, ..m.palette.shrieker }
    } else {
        m.palette.sensor
    };
    if lis_water(m, pos) && (base.block == BlockKind::SculkShrieker || base.block == BlockKind::SculkSensor) {
        BlockState { waterlogged: true, water_fluid: true, fluid_source: true, ..base }
    } else {
        base
    }
}

/// Rules governing sculk sensor / shrieker placement.
pub struct GrowthRules;

impl GrowthRules {
    /// Whether a growth can be placed above `pos`.
    pub fn can_place_growth(level: &SculkLevel, pos: BlockPos) -> (b: bool)
        requires
            pos.y < i32::MAX,
            spec_above_open(level@, pos) ==> growth_scan_fits(pos),
        ensures
            b == spec_can_place_growth(level@, pos),
    {
        let above = pos.up();
        let above_state = match level.sculk_get(above) {
            None => {
                return false;
            },
            Some(s) => s,
        };
        let above_id = above_state.block;
        if !(above_state.is_air || (above_id == BlockKind::Water && level.sculk_is_water(above))) {
            return false;
        }
        let mut growth_count: i32 = 0;
        let mut dx: i32 = -GROWTH_CHECK_RADIUS;
        while dx <= GROWTH_CHECK_RADIUS
            invariant
                growth_scan_fits(pos),
                -GROWTH_CHECK_RADIUS <= dx <= GROWTH_CHECK_RADIUS + 1,
                growth_count == box_growths(level@, pos, dx + GROWTH_CHECK_RADIUS),
                growth_count <= MAX_NEARBY_GROWTHS,
            decreases GROWTH_CHECK_RADIUS + 1 - dx,
        {
            let mut dz: i32 = -GROWTH_CHECK_RADIUS;
            while dz <= GROWTH_CHECK_RADIUS
                invariant
                    growth_scan_fits(pos),
                    -GROWTH_CHECK_RADIUS <= dx <= GROWTH_CHECK_RADIUS,
                    -GROWTH_CHECK_RADIUS <= dz <= GROWTH_CHECK_RADIUS + 1,
                    growth_count == box_growths(level@, pos, dx + GROWTH_CHECK_RADIUS) + row_growths(
                        level@,
                        pos,
                        dx as int,
                        dz + GROWTH_CHECK_RADIUS,
                    ),
                    growth_count <= MAX_NEARBY_GROWTHS,
                decreases GROWTH_CHECK_RADIUS + 1 - dz,
            {
                let mut dy: i32 = 0;
                while dy <= GROWTH_CHECK_HEIGHT
                    invariant
                        growth_scan_fits(pos),
                        -GROWTH_CHECK_RADIUS <= dx <= GROWTH_CHECK_RADIUS,
                        -GROWTH_CHECK_RADIUS <= dz <= GROWTH_CHECK_RADIUS,
                        0 <= dy <= GROWTH_CHECK_HEIGHT + 1,
                        growth_count == box_growths(level@, pos, dx + GROWTH_CHECK_RADIUS) + row_growths(
                            level@,
                            pos,
                            dx as int,
                            dz + GROWTH_CHECK_RADIUS,
                        ) + column_growths(level@, pos, dx as int, dz as int, dy as int),
                        growth_count <= MAX_NEARBY_GROWTHS,
                    decreases GROWTH_CHECK_HEIGHT + 1 - dy,
                {
                    let check_pos = pos.offset(dx, dy, dz);
                    match level.sculk_get(check_pos) {
                        Some(s) => {
                            let id = s.block;
                            if id == BlockKind::SculkSensor || id == BlockKind::SculkShrieker {
                                growth_count = growth_count + 1;
                                if growth_count > MAX_NEARBY_GROWTHS {
                                    proof {
                                        let m = level@;
                                        lemma_column_mono(m, pos, dx as int, dz as int, dy + 1, GROWTH_CHECK_HEIGHT + 1);
                                        lemma_row_mono(m, pos, dx as int, dz + GROWTH_CHECK_RADIUS + 1, 2 * GROWTH_CHECK_RADIUS + 1);
                                        lemma_box_mono(m, pos, dx + GROWTH_CHECK_RADIUS + 1, 2 * GROWTH_CHECK_RADIUS + 1);
                                        assert(row_growths(m, pos, dx as int, dz + GROWTH_CHECK_RADIUS + 1)
                                            == row_growths(m, pos, dx as int, dz + GROWTH_CHECK_RADIUS)
                                            + column_growths(m, pos, dx as int, dz as int, GROWTH_CHECK_HEIGHT + 1));
                                        assert(box_growths(m, pos, dx + GROWTH_CHECK_RADIUS + 1) == box_growths(
                                            m,
                                            pos,
                                            dx + GROWTH_CHECK_RADIUS,
                                        ) + row_growths(m, pos, dx as int, 2 * GROWTH_CHECK_RADIUS + 1));
                                    }
                                    return false;
                                }
                            }
                        },
                        None => {},
                    }
                    dy = dy + 1;
                }
                dz = dz + 1;
            }
            dx = dx + 1;
        }
        true
    }

    /// The growth to place at `pos`: a shrieker (summoning in world
    /// generation) when `roll`, a `next_bounded_i32(11)`, is 0, a sensor
    /// otherwise, holding water where the position holds water.
    pub fn random_growth_state(level: &SculkLevel, pos: BlockPos, roll: i32, is_world_gen: bool) -> (s: BlockState)
        ensures
            s == spec_random_growth_state(level@, pos, roll, is_world_gen),
    {
        let palette = level.palette();
        let base_state = if roll == 0 {
            BlockState { can_summon: is_world_gen, ..palette.shrieker }
        } else {
            palette.sensor
        };
        if level.sculk_is_water(pos) {
            let block_id = base_state.block;
            if block_id == BlockKind::SculkShrieker || block_id == BlockKind::SculkSensor {
                return BlockState { waterlogged: true, water_fluid: true, fluid_source: true, ..base_state };
            }
        }
        base_state
    }
}

/// The growth placed for a roll: a shrieker on 0 and a sensor otherwise.
/// Only a shrieker placed during world generation can summon, and the
/// growth holds water (a water source) exactly where the position holds
/// water.
pub proof fn lemma_random_growth_kind(m: LevelModel, pos: BlockPos, roll: i32, is_world_gen: bool)
    requires
        palette_valid(m.palette),
    ensures
        spec_random_growth_state(m, pos, roll, is_world_gen).block == if roll == 0 {
            BlockKind::SculkShrieker
        } else {
            BlockKind::SculkSensor
        },
        spec_random_growth_state(m, pos, roll, is_world_gen).can_summon == (roll == 0 && is_world_gen),
        spec_random_growth_state(m, pos, roll, is_world_gen).waterlogged == lis_water(m, pos),
        spec_random_growth_state(m, pos, roll, is_world_gen).water_fluid == lis_water(m, pos),
{
}

/// A sensor or shrieker stands at the offset `c` from `pos`.
pub open spec fn growth_at_offset(m: LevelModel, pos: BlockPos, c: (int, int, int)) -> bool {
    lget(m, shifted(pos, c.0, c.1, c.2)) matches Some(s) && (s.block == BlockKind::SculkSensor || s.block
        == BlockKind::SculkShrieker)
}

/// The offset `c` lies in the scan for nearby growths: within 4 blocks
/// sideways and 0 to 2 blocks up.
pub open spec fn in_growth_scan(c: (int, int, int)) -> bool {
    &&& -GROWTH_CHECK_RADIUS <= c.0 <= GROWTH_CHECK_RADIUS
    &&& 0 <= c.1 <= GROWTH_CHECK_HEIGHT
    &&& -GROWTH_CHECK_RADIUS <= c.2 <= GROWTH_CHECK_RADIUS
}

spec fn col_hit(c: (int, int, int), dx: int, dz: int, n: int) -> int {
    if c.0 == dx && c.2 == dz && 0 <= c.1 < n { 1 } else { 0 }
}

spec fn row_hit(c: (int, int, int), dx: int, n: int) -> int {
    if c.0 == dx && -GROWTH_CHECK_RADIUS <= c.2 < -GROWTH_CHECK_RADIUS + n && 0 <= c.1 <= GROWTH_CHECK_HEIGHT {
        1
    } else {
        0
    }
}

spec fn box_hit(c: (int, int, int), n: int) -> int {
    if -GROWTH_CHECK_RADIUS <= c.0 < -GROWTH_CHECK_RADIUS + n && -GROWTH_CHECK_RADIUS <= c.2
        <= GROWTH_CHECK_RADIUS && 0 <= c.1 <= GROWTH_CHECK_HEIGHT {
        1
    } else {
        0
    }
}

proof fn lemma_column_hits(
    m: LevelModel,
    pos: BlockPos,
    dx: int,
    dz: int,
    n: int,
    a: (int, int, int),
    b: (int, int, int),
    c: (int, int, int),
)
    requires
        0 <= n,
        a != b && b != c && a != c,
        growth_at_offset(m, pos, a),
        growth_at_offset(m, pos, b),
        growth_at_offset(m, pos, c),
    ensures
        column_growths(m, pos, dx, dz, n) >= col_hit(a, dx, dz, n) + col_hit(b, dx, dz, n) + col_hit(c, dx, dz, n),
    decreases n,
{
    if n > 0 {
        lemma_column_hits(m, pos, dx, dz, n - 1, a, b, c);
    }
}

proof fn lemma_row_hits(
    m: LevelModel,
    pos: BlockPos,
    dx: int,
    n: int,
    a: (int, int, int),
    b: (int, int, int),
    c: (int, int, int),
)
    requires
        0 <= n,
        a != b && b != c && a != c,
        growth_at_offset(m, pos, a),
        growth_at_offset(m, pos, b),
        growth_at_offset(m, pos, c),
    ensures
        row_growths(m, pos, dx, n) >= row_hit(a, dx, n) + row_hit(b, dx, n) + row_hit(c, dx, n),
    decreases n,
{
    if n > 0 {
        lemma_row_hits(m, pos, dx, n - 1, a, b, c);
        lemma_column_hits(m, pos, dx, -GROWTH_CHECK_RADIUS + n - 1, GROWTH_CHECK_HEIGHT + 1, a, b, c);
    }
}

proof fn lemma_box_hits(m: LevelModel, pos: BlockPos, n: int, a: (int, int, int), b: (int, int, int), c: (int, int, int))
    requires
        0 <= n,
        a != b && b != c && a != c,
        growth_at_offset(m, pos, a),
        growth_at_offset(m, pos, b),
        growth_at_offset(m, pos, c),
    ensures
        box_growths(m, pos, n) >= box_hit(a, n) + box_hit(b, n) + box_hit(c, n),
    decreases n,
{
    if n > 0 {
        lemma_box_hits(m, pos, n - 1, a, b, c);
        lemma_row_hits(m, pos, -GROWTH_CHECK_RADIUS + n - 1, 2 * GROWTH_CHECK_RADIUS + 1, a, b, c);
    }
}

proof fn lemma_box_empty(m: LevelModel, pos: BlockPos, n: int)
    requires
        0 <= n <= 2 * GROWTH_CHECK_RADIUS + 1,
        forall|dx: int, dy: int, dz: int|
            -GROWTH_CHECK_RADIUS <= dx <= GROWTH_CHECK_RADIUS && 0 <= dy <= GROWTH_CHECK_HEIGHT
                && -GROWTH_CHECK_RADIUS <= dz <= GROWTH_CHECK_RADIUS ==> !#[trigger] growth_at_offset(
                m,
                pos,
                (dx, dy, dz),
            ),
    ensures
        box_growths(m, pos, n) == 0,
    decreases n,
{
    if n > 0 {
        lemma_box_empty(m, pos, n - 1);
        let dx = -GROWTH_CHECK_RADIUS + n - 1;
        assert forall|k: int| 0 <= k <= 2 * GROWTH_CHECK_RADIUS + 1 implies #[trigger] row_growths(m, pos, dx, k)
            == 0 by {
            lemma_row_empty(m, pos, dx, k);
        }
    }
}

proof fn lemma_row_empty(m: LevelModel, pos: BlockPos, dx: int, k: int)
    requires
        -GROWTH_CHECK_RADIUS <= dx <= GROWTH_CHECK_RADIUS,
        0 <= k <= 2 * GROWTH_CHECK_RADIUS + 1,
        forall|dx: int, dy: int, dz: int|
            -GROWTH_CHECK_RADIUS <= dx <= GROWTH_CHECK_RADIUS && 0 <= dy <= GROWTH_CHECK_HEIGHT
                && -GROWTH_CHECK_RADIUS <= dz <= GROWTH_CHECK_RADIUS ==> !#[trigger] growth_at_offset(
                m,
                pos,
                (dx, dy, dz),
            ),
    ensures
        row_growths(m, pos, dx, k) == 0,
    decreases k,
{
    if k > 0 {
        lemma_row_empty(m, pos, dx, k - 1);
        let dz = -GROWTH_CHECK_RADIUS + k - 1;
        lemma_column_empty(m, pos, dx, dz, GROWTH_CHECK_HEIGHT + 1);
    }
}

proof fn lemma_column_empty(m: LevelModel, pos: BlockPos, dx: int, dz: int, j: int)
    requires
        -GROWTH_CHECK_RADIUS <= dx <= GROWTH_CHECK_RADIUS,
        -GROWTH_CHECK_RADIUS <= dz <= GROWTH_CHECK_RADIUS,
        0 <= j <= GROWTH_CHECK_HEIGHT + 1,
        forall|dx: int, dy: int, dz: int|
            -GROWTH_CHECK_RADIUS <= dx <= GROWTH_CHECK_RADIUS && 0 <= dy <= GROWTH_CHECK_HEIGHT
                && -GROWTH_CHECK_RADIUS <= dz <= GROWTH_CHECK_RADIUS ==> !#[trigger] growth_at_offset(
                m,
                pos,
                (dx, dy, dz),
            ),
    ensures
        column_growths(m, pos, dx, dz, j) == 0,
    decreases j,
{
    if j > 0 {
        lemma_column_empty(m, pos, dx, dz, j - 1);
        assert(!growth_at_offset(m, pos, (dx, j - 1, dz)));
    }
}

/// Where a growth can go above `pos`: never when the block above is
/// missing, or neither air nor a water block holding water; never when
/// three sensors or shriekers stand within 4 blocks sideways and 0 to 2
/// blocks up; always when the block above is air and none stands there.
pub proof fn lemma_growth_placement(
    m: LevelModel,
    pos: BlockPos,
    a: (int, int, int),
    b: (int, int, int),
    c: (int, int, int),
)
    ensures
        !(lget(m, shifted(pos, 0, 1, 0)) matches Some(t) && (t.is_air || (t.block == BlockKind::Water && lis_water(
            m,
            shifted(pos, 0, 1, 0),
        )))) ==> !spec_can_place_growth(m, pos),
        a != b && b != c && a != c && growth_at_offset(m, pos, a) && growth_at_offset(m, pos, b)
            && growth_at_offset(m, pos, c) && in_growth_scan(a) && in_growth_scan(b) && in_growth_scan(c)
            ==> !spec_can_place_growth(m, pos),
        (lget(m, shifted(pos, 0, 1, 0)) matches Some(t) && t.is_air) && (forall|dx: int, dy: int, dz: int|
            -GROWTH_CHECK_RADIUS <= dx <= GROWTH_CHECK_RADIUS && 0 <= dy <= GROWTH_CHECK_HEIGHT
                && -GROWTH_CHECK_RADIUS <= dz <= GROWTH_CHECK_RADIUS ==> !#[trigger] growth_at_offset(
                m,
                pos,
                (dx, dy, dz),
            )) ==> spec_can_place_growth(m, pos),
{
    if a != b && b != c && a != c && growth_at_offset(m, pos, a) && growth_at_offset(m, pos, b)
        && growth_at_offset(m, pos, c) {
        lemma_box_hits(m, pos, 2 * GROWTH_CHECK_RADIUS + 1, a, b, c);
    }
    if forall|dx: int, dy: int, dz: int|
        -GROWTH_CHECK_RADIUS <= dx <= GROWTH_CHECK_RADIUS && 0 <= dy <= GROWTH_CHECK_HEIGHT
            && -GROWTH_CHECK_RADIUS <= dz <= GROWTH_CHECK_RADIUS ==> !#[trigger] growth_at_offset(
            m,
            pos,
            (dx, dy, dz),
        ) {
        lemma_box_empty(m, pos, 2 * GROWTH_CHECK_RADIUS + 1);
    }
}

} // verus!
