//! Sculk-vein spreading across block faces (multiface growth).

use vstd::prelude::*;
use crate::block_pos::{
    block_pos_fits, dir_at, dir_axis, dir_opposite, neighbour, BlockDirection, BlockPos,
};
use crate::sculk::{
    face_in, face_set, lget, lis_face_sturdy, lis_water, lis_water_source, lset, BlockKind, BlockState,
    palette_valid, FaceSet, LevelModel, SculkLevel, SculkPalette,
};

verus! {

/// The three places a vein can spread to from a face.
#[derive(Clone, Copy, PartialEq, Eq, Structural, Debug, Hash)]
pub enum SpreadType {
    /// The same position, facing the spread direction.
    SamePosition,
    /// The neighbour in the spread direction, facing the source face.
    SamePlane,
    /// Around the corner: the neighbour in the spread direction, then across
    /// the source face, facing back against the spread direction.
    WrapAround,
}

pub open spec fn spec_spread_pos(
    t: SpreadType,
    pos: BlockPos,
    spread_direction: BlockDirection,
    from_face: BlockDirection,
) -> (BlockPos, BlockDirection) {
    match t {
        SpreadType::SamePosition => (pos, spread_direction),
        SpreadType::SamePlane => (neighbour(pos, spread_direction), from_face),
        SpreadType::WrapAround => (
            neighbour(neighbour(pos, spread_direction), from_face),
            dir_opposite(spread_direction),
        ),
    }
}

impl SpreadType {
    /// The target position and the face that the new vein gets there.
    pub fn spread_pos(self, pos: BlockPos, spread_direction: BlockDirection, from_face: BlockDirection) -> (r: (
        BlockPos,
        BlockDirection,
    ))
        requires
            block_pos_fits(pos, 2),
        ensures
            r == spec_spread_pos(self, pos, spread_direction, from_face),
    {
        match self {
            SpreadType::SamePosition => (pos, spread_direction),
            SpreadType::SamePlane => (pos.offset_dir(spread_direction), from_face),
            SpreadType::WrapAround => (
                pos.offset_dir(spread_direction).offset_dir(from_face),
                spread_direction.opposite(),
            ),
        }
    }
}

/// The order in which spread positions are tried.
pub fn default_spread_order() -> (order: Vec<SpreadType>)
    ensures
        order@ == seq![SpreadType::SamePosition, SpreadType::SamePlane, SpreadType::WrapAround],
{
    let mut order: Vec<SpreadType> = Vec::new();
    order.push(SpreadType::SamePosition);
    order.push(SpreadType::SamePlane);
    order.push(SpreadType::WrapAround);
    assert(order@ =~= seq![SpreadType::SamePosition, SpreadType::SamePlane, SpreadType::WrapAround]);
    order
}

pub open spec fn spec_has_face(s: BlockState, face: BlockDirection) -> bool {
    s.block == BlockKind::SculkVein && face_in(s.faces, face)
}

pub open spec fn spec_has_any_face(s: BlockState) -> bool {
    exists|i: int| 0 <= i < 6 && #[trigger] spec_has_face(s, dir_at(i))
}

/// The vein state with the given faces, holding water (a water source) or
/// not.
pub open spec fn vein_state(p: SculkPalette, faces: FaceSet, waterlogged: bool) -> BlockState {
    BlockState { faces, waterlogged, water_fluid: waterlogged, fluid_source: waterlogged, ..p.vein }
}

/// `s` is one of the vein states of the palette.
pub open spec fn is_vein_state(p: SculkPalette, s: BlockState) -> bool {
    s == vein_state(p, s.faces, s.waterlogged)
}

pub open spec fn spec_with_face(p: SculkPalette, s: BlockState, face: BlockDirection, value: bool) -> BlockState {
    vein_state(p, face_set(s.faces, face, value), s.waterlogged)
}

pub open spec fn spec_with_waterlogged(p: SculkPalette, s: BlockState, value: bool) -> BlockState {
    vein_state(p, s.faces, value)
}

pub open spec fn spec_can_attach_to(m: LevelModel, pos: BlockPos, face: BlockDirection) -> bool {
    lis_face_sturdy(m, neighbour(pos, face), dir_opposite(face))
}

pub open spec fn spec_state_has_water(m: LevelModel, s: BlockState, pos: BlockPos) -> bool {
    match s.block {
        BlockKind::Water => lis_water(m, pos),
        BlockKind::SculkVein => s.waterlogged,
        _ => false,
    }
}

pub open spec fn spec_old_state_is_water_source(m: LevelModel, s: BlockState, pos: BlockPos) -> bool {
    match s.block {
        BlockKind::Water => lis_water_source(m, pos),
        BlockKind::SculkVein => s.waterlogged,
        _ => false,
    }
}

pub open spec fn spec_can_spread_from_face(s: BlockState, face: BlockDirection) -> bool {
    if s.block == BlockKind::SculkVein { spec_has_face(s, face) } else { true }
}

pub open spec fn iabs(a: int) -> int {
    if a < 0 { -a } else { a }
}

pub open spec fn manhattan(a: BlockPos, b: BlockPos) -> int {
    iabs(a.x - b.x) + iabs(a.y - b.y) + iabs(a.z - b.z)
}

/// Whether a vein from `source_pos` may go to `placement_pos` with face
/// `placement_face`.
#[verifier::opaque]
pub open spec fn spec_can_spread_into(
    m: LevelModel,
    source_pos: BlockPos,
    placement_pos: BlockPos,
    placement_face: BlockDirection,
) -> bool {
    match lget(m, placement_pos) {
        None => false,
        Some(existing) => {
            let against_blocked = match lget(m, neighbour(placement_pos, placement_face)) {
                Some(a) => a.block == BlockKind::Sculk || a.block == BlockKind::SculkCatalyst || a.block
                    == BlockKind::MovingPiston,
                None => false,
            };
            &&& !against_blocked
            &&& !(manhattan(placement_pos, source_pos) == 2 && lis_face_sturdy(
                m,
                neighbour(source_pos, dir_opposite(placement_face)),
                placement_face,
            ))
            &&& existing.block != BlockKind::Fire
            &&& !(existing.is_liquid && !(existing.block == BlockKind::Water && lis_water(m, placement_pos)))
            &&& (existing.replaceable || existing.block == BlockKind::Air || existing.block
                == BlockKind::SculkVein || (existing.block == BlockKind::Water && lis_water_source(
                m,
                placement_pos,
            )))
        },
    }
}

/// The vein state to place at `placement_pos` with face `face`, given the
/// state there before.
#[verifier::opaque]
pub open spec fn spec_state_for_placement(
    m: LevelModel,
    placement_pos: BlockPos,
    face: BlockDirection,
    old_state: Option<BlockState>,
) -> Option<BlockState> {
    if !spec_can_attach_to(m, placement_pos, face) {
        None
    } else if old_state matches Some(o) && o.block == BlockKind::SculkVein && spec_has_face(o, face) {
        None
    } else {
        let base0 = match old_state {
            Some(s) => if s.block == BlockKind::SculkVein { s } else { m.palette.vein },
            None => m.palette.vein,
        };
        let base = spec_with_face(m.palette, base0, face, true);
        if old_state matches Some(s) && spec_old_state_is_water_source(m, s, placement_pos) {
            Some(spec_with_waterlogged(m.palette, base, true))
        } else {
            Some(base)
        }
    }
}

/// Rules for sculk-vein spreading across block faces.
pub struct VeinRules;

impl VeinRules {
    /// Whether `state` is a vein with the given face.
    pub fn has_face(state: BlockState, face: BlockDirection) -> (b: bool)
        ensures
            b == spec_has_face(state, face),
    {
        if state.block != BlockKind::SculkVein {
            return false;
        }
        state.faces.get(face)
    }

    /// Whether `state` is a vein with any face.
    pub fn has_any_face(state: BlockState) -> (b: bool)
        ensures
            b == spec_has_any_face(state),
    {
        let dirs = BlockDirection::all();
        let mut i: usize = 0;
        while i < 6
            invariant
                i <= 6,
                forall|q: int| 0 <= q < 6 ==> #[trigger] dirs@[q] == dir_at(q),
                forall|q: int| 0 <= q < i ==> !#[trigger] spec_has_face(state, dir_at(q)),
            decreases 6 - i,
        {
            if Self::has_face(state, dirs[i]) {
                return true;
            }
            i = i + 1;
        }
        false
    }

    /// A vein state with the faces of `state` and the given face set to
    /// `value`.
    pub fn with_face(palette: &SculkPalette, state: BlockState, face: BlockDirection, value: bool) -> (s: BlockState)
        requires
            palette_valid(*palette),
        ensures
            s == spec_with_face(*palette, state, face, value),
    {
        BlockState {
            faces: state.faces.with(face, value),
            waterlogged: state.waterlogged,
            water_fluid: state.waterlogged,
            fluid_source: state.waterlogged,
            ..palette.vein
        }
    }

    /// A vein state with the faces of `state`, holding water or not.
    pub fn with_waterlogged(palette: &SculkPalette, state: BlockState, value: bool) -> (s: BlockState)
        requires
            palette_valid(*palette),
        ensures
            s == spec_with_waterlogged(*palette, state, value),
    {
        BlockState { faces: state.faces, waterlogged: value, water_fluid: value, fluid_source: value, ..palette.vein }
    }

    /// A vein face can attach at `pos` when the side of the block behind it
    /// is sturdy.
    pub fn can_attach_to(level: &SculkLevel, pos: BlockPos, face: BlockDirection) -> (b: bool)
        requires
            block_pos_fits(pos, 1),
        ensures
            b == spec_can_attach_to(level@, pos, face),
    {
        let support_pos = pos.offset_dir(face);
        level.sculk_is_face_sturdy(support_pos, face.opposite())
    }

    /// Whether `state` at `pos` holds water.
    pub fn state_has_water(level: &SculkLevel, state: BlockState, pos: BlockPos) -> (b: bool)
        ensures
            b == spec_state_has_water(level@, state, pos),
    {
        match state.block {
            BlockKind::Water => level.sculk_is_water(pos),
            BlockKind::SculkVein => state.waterlogged,
            _ => false,
        }
    }

    /// Regrowing needs air or water at the position.
    pub fn state_is_air_or_water(level: &SculkLevel, state: BlockState, pos: BlockPos) -> (b: bool)
        ensures
            b == (state.is_air || spec_state_has_water(level@, state, pos)),
    {
        state.is_air || Self::state_has_water(level, state, pos)
    }

    /// Whether `state` at `pos` held a water source.
    pub fn old_state_is_water_source(level: &SculkLevel, state: BlockState, pos: BlockPos) -> (b: bool)
        ensures
            b == spec_old_state_is_water_source(level@, state, pos),
    {
        match state.block {
            BlockKind::Water => level.sculk_is_water_source(pos),
            BlockKind::SculkVein => state.waterlogged,
            _ => false,
        }
    }

    /// A vein spreads only from its own faces; any other block from all.
    pub fn can_spread_from_face(state: BlockState, face: BlockDirection) -> (b: bool)
        ensures
            b == spec_can_spread_from_face(state, face),
    {
        if state.block == BlockKind::SculkVein {
            Self::has_face(state, face)
        } else {
            true
        }
    }

    /// Whether a vein from `source_pos` may spread into `placement_pos` with
    /// face `placement_face`.
    pub fn can_spread_into(
        level: &SculkLevel,
        source_pos: BlockPos,
        placement_pos: BlockPos,
        placement_face: BlockDirection,
    ) -> (b: bool)
        requires
            block_pos_fits(source_pos, 1),
            block_pos_fits(placement_pos, 1),
        ensures
            b == spec_can_spread_into(level@, source_pos, placement_pos, placement_face),
    {
        reveal(spec_can_spread_into);
        let existing = match level.sculk_get(placement_pos) {
            None => {
                return false;
            },
            Some(s) => s,
        };
        let existing_id = existing.block;
        let against_pos = placement_pos.offset_dir(placement_face);
        match level.sculk_get(against_pos) {
            Some(against) => {
                let against_id = against.block;
                if against_id == BlockKind::Sculk || against_id == BlockKind::SculkCatalyst || against_id
                    == BlockKind::MovingPiston {
                    return false;
                }
            },
            None => {},
        }
        let dx: i64 = placement_pos.x as i64 - source_pos.x as i64;
        let dy: i64 = placement_pos.y as i64 - source_pos.y as i64;
        let dz: i64 = placement_pos.z as i64 - source_pos.z as i64;
        let ax: i64 = if dx < 0 { -dx } else { dx };
        let ay: i64 = if dy < 0 { -dy } else { dy };
        let az: i64 = if dz < 0 { -dz } else { dz };
        if ax + ay + az == 2 {
            let neighbor_pos = source_pos.offset_dir(placement_face.opposite());
            if level.sculk_is_face_sturdy(neighbor_pos, placement_face) {
                return false;
            }
        }
        if existing_id == BlockKind::Fire {
            return false;
        }
        if existing.is_liquid && !(existing_id == BlockKind::Water && level.sculk_is_water(placement_pos)) {
            return false;
        }
        existing.replaceable || existing_id == BlockKind::Air || existing_id == BlockKind::SculkVein || (
        existing_id == BlockKind::Water && level.sculk_is_water_source(placement_pos))
    }

    /// The vein state to place at `placement_pos` with face `face`, or none
    /// when the face cannot attach or is already there.
    pub fn get_state_for_placement(
        level: &SculkLevel,
        placement_pos: BlockPos,
        face: BlockDirection,
        old_state: Option<BlockState>,
    ) -> (s: Option<BlockState>)
        requires
            block_pos_fits(placement_pos, 1),
        ensures
            s == spec_state_for_placement(level@, placement_pos, face, old_state),
    {
        reveal(spec_state_for_placement);
        if !Self::can_attach_to(level, placement_pos, face) {
            return None;
        }
        match old_state {
            Some(old) => {
                if old.block == BlockKind::SculkVein && Self::has_face(old, face) {
                    return None;
                }
            },
            None => {},
        }
        let palette = level.palette();
        let base0 = match old_state {
            Some(s) => if s.block == BlockKind::SculkVein { s } else { palette.vein },
            None => palette.vein,
        };
        let mut base = Self::with_face(&palette, base0, face, true);
        match old_state {
            Some(s) => {
                if Self::old_state_is_water_source(level, s, placement_pos) {
                    base = Self::with_waterlogged(&palette, base, true);
                }
            },
            None => {},
        }
        Some(base)
    }
}


/// Spreading in direction `dir` from face `from_face` at `pos`: the spread
/// types from index `t` on are tried in turn, and the first one whose
/// target accepts a vein places it.
pub open spec fn spread_in_direction(
    m: LevelModel,
    pos: BlockPos,
    dir: BlockDirection,
    from_face: BlockDirection,
    types: Seq<SpreadType>,
    t: int,
) -> (LevelModel, bool)
    decreases types.len() - t,
{
    if t < 0 || t >= types.len() {
        (m, false)
    } else {
        let (tp, tf) = spec_spread_pos(types[t], pos, dir, from_face);
        let placed = spec_state_for_placement(m, tp, tf, lget(m, tp));
        if spec_can_spread_into(m, pos, tp, tf) && placed is Some {
            (lset(m, tp, placed.unwrap()), true)
        } else {
            spread_in_direction(m, pos, dir, from_face, types, t + 1)
        }
    }
}

/// Spreading from face `from_face` of `source` at `pos` in the first `n`
/// directions: directions along the face's axis, and directions in which
/// a vein source already has a face, are skipped.
pub open spec fn spread_face(
    m: LevelModel,
    pos: BlockPos,
    source: BlockState,
    from_face: BlockDirection,
    types: Seq<SpreadType>,
    n: int,
) -> (LevelModel, bool)
    decreases n,
{
    if n <= 0 {
        (m, false)
    } else {
        let prev = spread_face(m, pos, source, from_face, types, n - 1);
        let dir = dir_at(n - 1);
        if dir_axis(dir) == dir_axis(from_face) || (source.block == BlockKind::SculkVein && spec_has_face(
            source,
            dir,
        )) {
            prev
        } else {
            let r = spread_in_direction(prev.0, pos, dir, from_face, types, 0);
            (r.0, prev.1 || r.1)
        }
    }
}

/// Spreading from the first `n` faces of `source` at `pos`.
pub open spec fn spread_faces(m: LevelModel, pos: BlockPos, source: BlockState, types: Seq<SpreadType>, n: int) -> (
    LevelModel,
    bool,
)
    decreases n,
{
    if n <= 0 {
        (m, false)
    } else {
        let prev = spread_faces(m, pos, source, types, n - 1);
        let face = dir_at(n - 1);
        if spec_can_spread_from_face(source, face) {
            let r = spread_face(prev.0, pos, source, face, types, 6);
            (r.0, prev.1 || r.1)
        } else {
            prev
        }
    }
}

/// Spreading from every face of the state at `pos`, read once before any
/// placement.
pub open spec fn spec_spread_with_types(m: LevelModel, pos: BlockPos, types: Seq<SpreadType>) -> (LevelModel, bool) {
    match lget(m, pos) {
        None => (m, false),
        Some(source) => spread_faces(m, pos, source, types, 6),
    }
}

pub open spec fn all_spread_types() -> Seq<SpreadType> {
    seq![SpreadType::SamePosition, SpreadType::SamePlane, SpreadType::WrapAround]
}

pub open spec fn same_space_types() -> Seq<SpreadType> {
    seq![SpreadType::SamePosition]
}

/// Regrowing from the first `n` faces: a fresh vein with each face that
/// can attach at `pos`.
pub open spec fn regrow_state(m: LevelModel, pos: BlockPos, faces: Seq<BlockDirection>, n: int) -> (BlockState, bool)
    decreases n,
{
    if n <= 0 {
        (m.palette.vein, false)
    } else {
        let prev = regrow_state(m, pos, faces, n - 1);
        if spec_can_attach_to(m, pos, faces[n - 1]) {
            (spec_with_face(m.palette, prev.0, faces[n - 1], true), true)
        } else {
            prev
        }
    }
}

pub open spec fn spec_regrow(m: LevelModel, pos: BlockPos, faces: Seq<BlockDirection>) -> (LevelModel, bool) {
    let (st, any) = regrow_state(m, pos, faces, faces.len() as int);
    if !any {
        (m, false)
    } else {
        let st2 = if lget(m, pos) matches Some(e) && spec_state_has_water(m, e, pos) {
            spec_with_waterlogged(m.palette, st, true)
        } else {
            st
        };
        (lset(m, pos, st2), true)
    }
}

impl VeinRules {
    /// Tries the spread types in turn in direction `dir` and places the
    /// first vein that fits.
    fn spread_in_direction(
        level: &mut SculkLevel,
        pos: BlockPos,
        dir: BlockDirection,
        from_face: BlockDirection,
        spread_types: &Vec<SpreadType>,
    ) -> (placed: bool)
        requires
            block_pos_fits(pos, 3),
        ensures
            (final(level)@, placed) == spread_in_direction(old(level)@, pos, dir, from_face, spread_types@, 0),
    {
        let ghost m0 = level@;
        let mut t: usize = 0;
        while t < spread_types.len()
            invariant
                block_pos_fits(pos, 3),
                t <= spread_types.len(),
                level@ == m0,
                m0 == old(level)@,
                spread_in_direction(m0, pos, dir, from_face, spread_types@, 0) == spread_in_direction(
                    m0,
                    pos,
                    dir,
                    from_face,
                    spread_types@,
                    t as int,
                ),
            decreases spread_types.len() - t,
        {
            let (target_pos, target_face) = spread_types[t].spread_pos(pos, dir, from_face);
            if Self::can_spread_into(level, pos, target_pos, target_face) {
                let old_state = level.sculk_get(target_pos);
                match Self::get_state_for_placement(level, target_pos, target_face, old_state) {
                    Some(state) => {
                        level.sculk_set(target_pos, state);
                        return true;
                    },
                    None => {},
                }
            }
            t = t + 1;
        }
        false
    }

    fn spread_from_face(
        level: &mut SculkLevel,
        pos: BlockPos,
        source_state: BlockState,
        from_face: BlockDirection,
        spread_types: &Vec<SpreadType>,
    ) -> (any: bool)
        requires
            block_pos_fits(pos, 3),
        ensures
            (final(level)@, any) == spread_face(old(level)@, pos, source_state, from_face, spread_types@, 6),
    {
        let ghost m0 = level@;
        let dirs = BlockDirection::all();
        let is_vein = source_state.block == BlockKind::SculkVein;
        let mut any = false;
        let mut i: usize = 0;
        while i < 6
            invariant
                block_pos_fits(pos, 3),
                is_vein == (source_state.block == BlockKind::SculkVein),
                forall|q: int| 0 <= q < 6 ==> #[trigger] dirs@[q] == dir_at(q),
                i <= 6,
                (level@, any) == spread_face(m0, pos, source_state, from_face, spread_types@, i as int),
            decreases 6 - i,
        {
            let spread_dir = dirs[i];
            if spread_dir.to_axis() == from_face.to_axis() {
                i = i + 1;
                continue;
            }
            if is_vein && Self::has_face(source_state, spread_dir) {
                i = i + 1;
                continue;
            }
            let placed = Self::spread_in_direction(level, pos, spread_dir, from_face, spread_types);
            any = any || placed;
            i = i + 1;
        }
        any
    }

    /// Spreads veins from the faces of the state at `pos` with the given
    /// spread types; the state is read once, so faces added during the call
    /// do not spread in it.
    pub fn spread_with_types(level: &mut SculkLevel, pos: BlockPos, spread_types: &Vec<SpreadType>) -> (any: bool)
        requires
            block_pos_fits(pos, 3),
        ensures
            (final(level)@, any) == spec_spread_with_types(old(level)@, pos, spread_types@),
    {
        let ghost m0 = level@;
        let source_state = match level.sculk_get(pos) {
            None => {
                return false;
            },
            Some(s) => s,
        };
        let dirs = BlockDirection::all();
        let mut any = false;
        let mut i: usize = 0;
        while i < 6
            invariant
                block_pos_fits(pos, 3),
                lget(m0, pos) == Some(source_state),
                forall|q: int| 0 <= q < 6 ==> #[trigger] dirs@[q] == dir_at(q),
                i <= 6,
                (level@, any) == spread_faces(m0, pos, source_state, spread_types@, i as int),
            decreases 6 - i,
        {
            let face = dirs[i];
            if Self::can_spread_from_face(source_state, face) {
                let placed = Self::spread_from_face(level, pos, source_state, face, spread_types);
                any = any || placed;
            }
            i = i + 1;
        }
        any
    }

    /// Spreads veins from all faces of the state at `pos`, trying the same
    /// position, then the same plane, then around the corner.
    pub fn spread_all(level: &mut SculkLevel, pos: BlockPos) -> (any: bool)
        requires
            block_pos_fits(pos, 3),
        ensures
            (final(level)@, any) == spec_spread_with_types(old(level)@, pos, all_spread_types()),
    {
        let order = default_spread_order();
        Self::spread_with_types(level, pos, &order)
    }

    /// Spreads veins to other faces of the same position only.
    pub fn spread_same_space(level: &mut SculkLevel, pos: BlockPos) -> (any: bool)
        requires
            block_pos_fits(pos, 3),
        ensures
            (final(level)@, any) == spec_spread_with_types(old(level)@, pos, same_space_types()),
    {
        let mut order: Vec<SpreadType> = Vec::new();
        order.push(SpreadType::SamePosition);
        assert(order@ =~= same_space_types());
        Self::spread_with_types(level, pos, &order)
    }

    /// Regrows a vein at `pos` with each of `faces` that can attach, keeping
    /// the water held there; nothing happens when none can.
    pub fn regrow(level: &mut SculkLevel, pos: BlockPos, faces: &Vec<BlockDirection>) -> (any: bool)
        requires
            block_pos_fits(pos, 1),
        ensures
            (final(level)@, any) == spec_regrow(old(level)@, pos, faces@),
    {
        let palette = level.palette();
        let mut has_any = false;
        let mut new_state = palette.vein;
        let mut i: usize = 0;
        while i < faces.len()
            invariant
                block_pos_fits(pos, 1),
                palette == level@.palette,
                palette_valid(palette),
                i <= faces.len(),
                (new_state, has_any) == regrow_state(level@, pos, faces@, i as int),
            decreases faces.len() - i,
        {
            let face = faces[i];
            if Self::can_attach_to(level, pos, face) {
                new_state = Self::with_face(&palette, new_state, face, true);
                has_any = true;
            }
            i = i + 1;
        }
        if !has_any {
            return false;
        }
        match level.sculk_get(pos) {
            Some(existing) => {
                if Self::state_has_water(level, existing, pos) {
                    new_state = Self::with_waterlogged(&palette, new_state, true);
                }
            },
            None => {},
        }
        level.sculk_set(pos, new_state);
        true
    }
}


/// The first `n` directions whose bit is set in `bits`, in registry order.
pub open spec fn bit_faces(bits: u8, n: int) -> Seq<BlockDirection>
    decreases n,
{
    if n <= 0 {
        Seq::empty()
    } else if bits & (1u8 << ((n - 1) as u8)) != 0 {
        bit_faces(bits, n - 1).push(dir_at(n - 1))
    } else {
        bit_faces(bits, n - 1)
    }
}

pub open spec fn spec_attempt_spread_vein(
    m: LevelModel,
    pos: BlockPos,
    state: Option<BlockState>,
    faces: Option<u8>,
) -> (LevelModel, bool) {
    match faces {
        None => spec_spread_with_types(m, pos, same_space_types()),
        Some(bits) => if bits == 0 {
            spec_spread_with_types(m, pos, all_spread_types())
        } else {
            let existing = match state {
                Some(s) => Some(s),
                None => lget(m, pos),
            };
            match existing {
                None => (m, false),
                Some(e) => if !(e.is_air || spec_state_has_water(m, e, pos)) {
                    (m, false)
                } else {
                    spec_regrow(m, pos, bit_faces(bits, 6))
                },
            }
        },
    }
}

pub open spec fn spec_has_substrate_access(m: LevelModel, s: BlockState, pos: BlockPos) -> bool {
    &&& s.block == BlockKind::SculkVein
    &&& exists|i: int|
        0 <= i < 6 && #[trigger] spec_has_face(s, dir_at(i)) && (lget(m, neighbour(pos, dir_at(i))) matches Some(
            n,
        ) && n.sculk_replaceable)
}

/// Dropping from `st` the faces, among the first `n` directions, whose
/// neighbour at `pos` is sculk.
pub open spec fn discharge_faces(m: LevelModel, pos: BlockPos, st: BlockState, n: int) -> BlockState
    decreases n,
{
    if n <= 0 {
        st
    } else {
        let prev = discharge_faces(m, pos, st, n - 1);
        let d = dir_at(n - 1);
        if spec_has_face(prev, d) && (lget(m, neighbour(pos, d)) matches Some(ns) && ns.block == BlockKind::Sculk) {
            spec_with_face(m.palette, prev, d, false)
        } else {
            prev
        }
    }
}

/// A vein at `pos` loses the faces that rest on sculk; with none left it
/// becomes water where water is held and air elsewhere.
pub open spec fn spec_on_discharged(m: LevelModel, pos: BlockPos) -> LevelModel {
    match lget(m, pos) {
        None => m,
        Some(s) => if s.block != BlockKind::SculkVein {
            m
        } else {
            let st = discharge_faces(m, pos, s, 6);
            let st2 = if !spec_has_any_face(st) {
                if lis_water(m, pos) { m.palette.water } else { m.palette.air }
            } else {
                st
            };
            lset(m, pos, st2)
        },
    }
}

impl VeinRules {
    /// The default spreading of a cursor at `pos`: without face bits only
    /// same-position spreading, with an empty set of bits the full spread,
    /// otherwise a regrowth with the faces whose bits are set, where the
    /// block is air or holds water.
    pub fn attempt_spread_vein(level: &mut SculkLevel, pos: BlockPos, state: Option<BlockState>, faces: Option<u8>) -> (any: bool)
        requires
            block_pos_fits(pos, 3),
        ensures
            (final(level)@, any) == spec_attempt_spread_vein(old(level)@, pos, state, faces),
    {
        match faces {
            None => Self::spread_same_space(level, pos),
            Some(faces_bits) => {
                if faces_bits == 0 {
                    return Self::spread_all(level, pos);
                }
                let existing = match state {
                    Some(s) => s,
                    None => match level.sculk_get(pos) {
                        Some(s) => s,
                        None => {
                            return false;
                        },
                    },
                };
                if !Self::state_is_air_or_water(level, existing, pos) {
                    return false;
                }
                let dirs = BlockDirection::all();
                let mut list: Vec<BlockDirection> = Vec::new();
                let mut i: usize = 0;
                while i < 6
                    invariant
                        forall|q: int| 0 <= q < 6 ==> #[trigger] dirs@[q] == dir_at(q),
                        i <= 6,
                        list@ == bit_faces(faces_bits, i as int),
                    decreases 6 - i,
                {
                    let dir = dirs[i];
                    let idx = dir.to_index();
                    assert(idx == i) by {
                        assert(dirs@[i as int] == dir_at(i as int));
                    }
                    if faces_bits & (1u8 << idx) != 0 {
                        list.push(dir);
                    }
                    i = i + 1;
                }
                Self::regrow(level, pos, &list)
            },
        }
    }

    /// Whether a vein at `pos` has a face resting on a sculk-replaceable
    /// block.
    pub fn has_substrate_access(level: &SculkLevel, state: BlockState, pos: BlockPos) -> (b: bool)
        requires
            block_pos_fits(pos, 1),
        ensures
            b == spec_has_substrate_access(level@, state, pos),
    {
        if state.block != BlockKind::SculkVein {
            return false;
        }
        let dirs = BlockDirection::all();
        let mut i: usize = 0;
        while i < 6
            invariant
                block_pos_fits(pos, 1),
                state.block == BlockKind::SculkVein,
                forall|q: int| 0 <= q < 6 ==> #[trigger] dirs@[q] == dir_at(q),
                i <= 6,
                forall|q: int|
                    0 <= q < i ==> !(#[trigger] spec_has_face(state, dir_at(q)) && (lget(
                        level@,
                        neighbour(pos, dir_at(q)),
                    ) matches Some(n) && n.sculk_replaceable)),
            decreases 6 - i,
        {
            let dir = dirs[i];
            if Self::has_face(state, dir) {
                let neighbour_pos = pos.offset_dir(dir);
                match level.sculk_get(neighbour_pos) {
                    Some(s) => {
                        if s.sculk_replaceable {
                            return true;
                        }
                    },
                    None => {},
                }
            }
            i = i + 1;
        }
        false
    }

    /// Removes the faces of the vein at `pos` that rest on sculk, replacing a
    /// vein left without faces by water or air.
    pub fn on_discharged(level: &mut SculkLevel, pos: BlockPos)
        requires
            block_pos_fits(pos, 1),
        ensures
            final(level)@ == spec_on_discharged(old(level)@, pos),
    {
        let state = match level.sculk_get(pos) {
            None => {
                return;
            },
            Some(s) => s,
        };
        if state.block != BlockKind::SculkVein {
            return;
        }
        let palette = level.palette();
        let dirs = BlockDirection::all();
        let mut new_state = state;
        let mut i: usize = 0;
        while i < 6
            invariant
                block_pos_fits(pos, 1),
                palette == level@.palette,
                palette_valid(palette),
                forall|q: int| 0 <= q < 6 ==> #[trigger] dirs@[q] == dir_at(q),
                i <= 6,
                new_state == discharge_faces(level@, pos, state, i as int),
            decreases 6 - i,
        {
            let dir = dirs[i];
            if Self::has_face(new_state, dir) {
                let neighbour_pos = pos.offset_dir(dir);
                let is_sculk = match level.sculk_get(neighbour_pos) {
                    Some(ns) => ns.block == BlockKind::Sculk,
                    None => false,
                };
                if is_sculk {
                    new_state = Self::with_face(&palette, new_state, dir, false);
                }
            }
            i = i + 1;
        }
        if !Self::has_any_face(new_state) {
            new_state = if level.sculk_is_water(pos) {
                palette.water
            } else {
                palette.air
            };
        }
        level.sculk_set(pos, new_state);
    }
}


pub open spec fn all_dirs() -> Seq<BlockDirection> {
    seq![dir_at(0), dir_at(1), dir_at(2), dir_at(3), dir_at(4), dir_at(5)]
}

/// The six directions after the first `n` steps of a Fisher-Yates shuffle:
/// step `k` swaps position `5 - k` with position `rolls[k]`.
pub open spec fn shuffled(rolls: Seq<i32>, n: int) -> Seq<BlockDirection>
    decreases n,
{
    if n <= 0 {
        all_dirs()
    } else {
        let s = shuffled(rolls, n - 1);
        let i = 6 - n;
        let j = rolls[n - 1] as int;
        s.update(i, s[j]).update(j, s[i])
    }
}

/// The rolls of a shuffle: roll `k` is in `0..=5 - k`.
pub open spec fn valid_rolls(rolls: Seq<i32>) -> bool {
    &&& rolls.len() == 5
    &&& forall|k: int| 0 <= k < 5 ==> 0 <= #[trigger] rolls[k] <= 5 - k
}

/// The support directions in shuffled order, from the five rolls of
/// `next_bounded_i32(i + 1)` for `i` from 5 down to 1.
pub fn shuffle_directions(rolls: &Vec<i32>) -> (order: Vec<BlockDirection>)
    requires
        valid_rolls(rolls@),
    ensures
        order@ == shuffled(rolls@, 5),
        order.len() == 6,
{
    let dirs = BlockDirection::all();
    let mut order: Vec<BlockDirection> = Vec::new();
    let mut q: usize = 0;
    while q < 6
        invariant
            q <= 6,
            forall|r: int| 0 <= r < 6 ==> #[trigger] dirs@[r] == dir_at(r),
            order@ == all_dirs().take(q as int),
        decreases 6 - q,
    {
        order.push(dirs[q]);
        assert(order@ =~= all_dirs().take(q + 1));
        q = q + 1;
    }
    assert(order@ =~= all_dirs());
    let mut k: usize = 0;
    while k < 5
        invariant
            valid_rolls(rolls@),
            k <= 5,
            order.len() == 6,
            order@ == shuffled(rolls@, k as int),
        decreases 5 - k,
    {
        let i: usize = 5 - k;
        let j: usize = rolls[k] as usize;
        let a = order[i];
        let b = order[j];
        order.set(i, b);
        order.set(j, a);
        k = k + 1;
    }
    order
}

pub open spec fn tag_replaceable(s: BlockState, world_gen: bool) -> bool {
    if world_gen { s.sculk_replaceable_world_gen } else { s.sculk_replaceable }
}

/// Discharging the veins next to `support_pos` in the first `n`
/// directions, except the direction `skip`.
pub open spec fn discharge_around(m: LevelModel, support_pos: BlockPos, skip: BlockDirection, n: int) -> LevelModel
    decreases n,
{
    if n <= 0 {
        m
    } else {
        let prev = discharge_around(m, support_pos, skip, n - 1);
        let d = dir_at(n - 1);
        let vein_pos = neighbour(support_pos, d);
        if d != skip && (lget(prev, vein_pos) matches Some(vs) && vs.block == BlockKind::SculkVein) {
            spec_on_discharged(prev, vein_pos)
        } else {
            prev
        }
    }
}

/// Trying the supports `order[i..]` of the vein `state` at `pos`: the first
/// face of the vein that rests on a replaceable block turns that block into
/// sculk, spreads veins from it and discharges the veins around it.
pub open spec fn place_from(
    m: LevelModel,
    pos: BlockPos,
    state: BlockState,
    order: Seq<BlockDirection>,
    world_gen: bool,
    i: int,
) -> (LevelModel, bool)
    decreases order.len() - i,
{
    if i < 0 || i >= order.len() {
        (m, false)
    } else {
        let support = order[i];
        let support_pos = neighbour(pos, support);
        if spec_has_face(state, support) && (lget(m, support_pos) matches Some(ss) && tag_replaceable(ss, world_gen)) {
            let m1 = lset(m, support_pos, m.palette.sculk);
            let m2 = spec_spread_with_types(m1, support_pos, all_spread_types()).0;
            (discharge_around(m2, support_pos, dir_opposite(support), 6), true)
        } else {
            place_from(m, pos, state, order, world_gen, i + 1)
        }
    }
}

pub open spec fn spec_attempt_place_sculk(m: LevelModel, pos: BlockPos, rolls: Seq<i32>, world_gen: bool) -> (
    LevelModel,
    bool,
) {
    match lget(m, pos) {
        None => (m, false),
        Some(state) => place_from(m, pos, state, shuffled(rolls, 5), world_gen, 0),
    }
}

impl VeinRules {
    /// Turns the block at `support_pos` into sculk, spreads veins from it and
    /// discharges the veins around it except the one it supported.
    fn sculk_at_support(level: &mut SculkLevel, support_pos: BlockPos, support: BlockDirection)
        requires
            block_pos_fits(support_pos, 3),
        ensures
            final(level)@ == discharge_around(
                spec_spread_with_types(
                    lset(old(level)@, support_pos, old(level)@.palette.sculk),
                    support_pos,
                    all_spread_types(),
                ).0,
                support_pos,
                dir_opposite(support),
                6,
            ),
    {
        let palette = level.palette();
        level.sculk_set(support_pos, palette.sculk);
        Self::spread_all(level, support_pos);
        let skip = support.opposite();
        let dirs = BlockDirection::all();
        let ghost m2 = level@;
        let mut v: usize = 0;
        while v < 6
            invariant
                block_pos_fits(support_pos, 3),
                forall|q: int| 0 <= q < 6 ==> #[trigger] dirs@[q] == dir_at(q),
                v <= 6,
                skip == dir_opposite(support),
                level@ == discharge_around(m2, support_pos, skip, v as int),
            decreases 6 - v,
        {
            let vein_dir = dirs[v];
            if vein_dir != skip {
                let vein_pos = support_pos.offset_dir(vein_dir);
                match level.sculk_get(vein_pos) {
                    Some(vs) => {
                        if vs.block == BlockKind::SculkVein {
                            Self::on_discharged(level, vein_pos);
                        }
                    },
                    None => {},
                }
            }
            v = v + 1;
        }
    }

    /// Places sculk at a support of the vein at `pos`: the supports are tried
    /// in the order that `rolls` shuffles them into, and the first one that
    /// the vein rests on and that is replaceable (by the world-generation tag
    /// when `world_gen`) becomes sculk.
    pub fn attempt_place_sculk(level: &mut SculkLevel, pos: BlockPos, rolls: &Vec<i32>, world_gen: bool) -> (placed: bool)
        requires
            block_pos_fits(pos, 4),
            valid_rolls(rolls@),
        ensures
            (final(level)@, placed) == spec_attempt_place_sculk(old(level)@, pos, rolls@, world_gen),
    {
        let ghost m0 = level@;
        let state = match level.sculk_get(pos) {
            None => {
                return false;
            },
            Some(s) => s,
        };
        let support_order = shuffle_directions(rolls);
        let mut i: usize = 0;
        while i < 6
            invariant
                block_pos_fits(pos, 4),
                m0 == old(level)@,
                lget(m0, pos) == Some(state),
                support_order@ == shuffled(rolls@, 5),
                support_order.len() == 6,
                i <= 6,
                level@ == m0,
                place_from(m0, pos, state, support_order@, world_gen, 0) == place_from(
                    m0,
                    pos,
                    state,
                    support_order@,
                    world_gen,
                    i as int,
                ),
            decreases 6 - i,
        {
            let support = support_order[i];
            if Self::has_face(state, support) {
                let support_pos = pos.offset_dir(support);
                match level.sculk_get(support_pos) {
                    Some(support_state) => {
                        let replaceable = if world_gen {
                            support_state.sculk_replaceable_world_gen
                        } else {
                            support_state.sculk_replaceable
                        };
                        if replaceable {
                            Self::sculk_at_support(level, support_pos, support);
                            assert(support_pos == neighbour(pos, support_order@[i as int]));
                            assert(tag_replaceable(support_state, world_gen));
                            assert(place_from(m0, pos, state, support_order@, world_gen, i as int) == (level@, true));
                            return true;
                        }
                    },
                    None => {},
                }
            }
            i = i + 1;
        }
        false
    }
}


/// The number of face steps from `p` to `q`.
pub open spec fn face_steps(p: BlockPos, q: BlockPos) -> int {
    let dx = q.x - p.x;
    let dy = q.y - p.y;
    let dz = q.z - p.z;
    (if dx < 0 { -dx } else { dx }) + (if dy < 0 { -dy } else { dy }) + (if dz < 0 { -dz } else { dz })
}

/// `m2` differs from `m` only in blocks within two face steps of `pos`,
/// each of which is now a vein; the palette and the bounds are kept.
pub open spec fn veins_near(m: LevelModel, m2: LevelModel, pos: BlockPos) -> bool {
    &&& m2.palette == m.palette
    &&& m2.reads_fluids == m.reads_fluids
    &&& m2.view == m.view
    &&& m2.fill == m.fill
    &&& forall|q: BlockPos|
        #[trigger] lget(m2, q) != lget(m, q) ==> face_steps(pos, q) <= 2 && (lget(m2, q) matches Some(
            s,
        ) && s.block == BlockKind::SculkVein)
}

/// Spreading from `pos` only places veins, and only within two face steps
/// of `pos`: every other block, the palette and the bounds stay as they
/// were.
pub proof fn lemma_spread_writes_only_nearby_veins(m: LevelModel, pos: BlockPos, types: Seq<SpreadType>)
    requires
        palette_valid(m.palette),
        block_pos_fits(pos, 3),
    ensures
        veins_near(m, spec_spread_with_types(m, pos, types).0, pos),
{
    crate::sculk::vein_laws::lemma_spread_writes_only_nearby_veins(m, pos, types);
}

/// Discharging the vein at `pos` writes nothing but that position.
pub proof fn lemma_discharge_writes_only_its_position(m: LevelModel, pos: BlockPos, q: BlockPos)
    requires
        q != pos,
    ensures
        lget(spec_on_discharged(m, pos), q) == lget(m, q),
        spec_on_discharged(m, pos).palette == m.palette,
{
    broadcast use crate::block_pos::lemma_block_key_injective;

    assert(crate::block_pos::block_key(q) != crate::block_pos::block_key(pos));
}

/// Setting one face of a vein state of a valid palette gives a vein state
/// of that palette with that face set, every other face and the water kept;
/// setting the same face again overrides the first setting, and setting a
/// face to what it already is changes nothing.
pub proof fn lemma_with_face_sets_one_face(
    p: SculkPalette,
    s: BlockState,
    f: BlockDirection,
    v: bool,
    w: bool,
)
    requires
        palette_valid(p),
        is_vein_state(p, s),
    ensures
        is_vein_state(p, spec_with_face(p, s, f, v)),
        spec_with_face(p, s, f, v).block == BlockKind::SculkVein,
        spec_with_face(p, s, f, v).waterlogged == s.waterlogged,
        forall|g: BlockDirection|
            #[trigger] spec_has_face(spec_with_face(p, s, f, v), g) == if g == f {
                v
            } else {
                spec_has_face(s, g)
            },
        spec_with_face(p, spec_with_face(p, s, f, v), f, w) == spec_with_face(p, s, f, w),
        spec_with_face(p, s, f, spec_has_face(s, f)) == s,
{
    let x = s.faces;
    match f {
        BlockDirection::Down => {
            assert(face_set(face_set(x, f, v), f, w) == face_set(x, f, w));
            assert(face_set(x, f, face_in(x, f)) == x);
        },
        BlockDirection::Up => {
            assert(face_set(face_set(x, f, v), f, w) == face_set(x, f, w));
            assert(face_set(x, f, face_in(x, f)) == x);
        },
        BlockDirection::North => {
            assert(face_set(face_set(x, f, v), f, w) == face_set(x, f, w));
            assert(face_set(x, f, face_in(x, f)) == x);
        },
        BlockDirection::South => {
            assert(face_set(face_set(x, f, v), f, w) == face_set(x, f, w));
            assert(face_set(x, f, face_in(x, f)) == x);
        },
        BlockDirection::West => {
            assert(face_set(face_set(x, f, v), f, w) == face_set(x, f, w));
            assert(face_set(x, f, face_in(x, f)) == x);
        },
        BlockDirection::East => {
            assert(face_set(face_set(x, f, v), f, w) == face_set(x, f, w));
            assert(face_set(x, f, face_in(x, f)) == x);
        },
    }
    assert forall|g: BlockDirection|
        #[trigger] spec_has_face(spec_with_face(p, s, f, v), g) == if g == f {
            v
        } else {
            spec_has_face(s, g)
        } by {
        match g {
            BlockDirection::Down => {},
            BlockDirection::Up => {},
            BlockDirection::North => {},
            BlockDirection::South => {},
            BlockDirection::West => {},
            BlockDirection::East => {},
        }
    }
}

} // verus!
