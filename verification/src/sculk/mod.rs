//! Sculk-patch generation rules: sculk spreading across surfaces (veins)
//! and sensor / shrieker growths, over a block level held as plain values.

use std::collections::HashMap;
use vstd::prelude::*;
use crate::block_pos::{
    block_key, block_key_of, block_pos_fits, dir_at, neighbour, BlockDirection, BlockPos,
};

pub mod growth;
pub mod vein;
pub mod vein_laws;

verus! {

broadcast use vstd::std_specs::hash::group_hash_axioms, crate::block_pos::lemma_block_key_injective;

/// The blocks that the sculk rules tell apart.
#[derive(Clone, Copy, PartialEq, Eq, Structural, Debug, Hash)]
pub enum BlockKind {
    Air,
    Water,
    Sculk,
    SculkVein,
    SculkCatalyst,
    SculkSensor,
    CalibratedSculkSensor,
    SculkShrieker,
    Fire,
    MovingPiston,
    /// Any other block, by registry id.
    Other(u16),
}

/// One flag per block face.
#[derive(Clone, Copy, PartialEq, Eq, Structural, Debug, Hash)]
pub struct FaceSet {
    pub down: bool,
    pub up: bool,
    pub north: bool,
    pub south: bool,
    pub west: bool,
    pub east: bool,
}

pub open spec fn face_in(s: FaceSet, d: BlockDirection) -> bool {
    match d {
        BlockDirection::Down => s.down,
        BlockDirection::Up => s.up,
        BlockDirection::North => s.north,
        BlockDirection::South => s.south,
        BlockDirection::West => s.west,
        BlockDirection::East => s.east,
    }
}

pub open spec fn face_set(s: FaceSet, d: BlockDirection, v: bool) -> FaceSet {
    match d {
        BlockDirection::Down => FaceSet { down: v, ..s },
        BlockDirection::Up => FaceSet { up: v, ..s },
        BlockDirection::North => FaceSet { north: v, ..s },
        BlockDirection::South => FaceSet { south: v, ..s },
        BlockDirection::West => FaceSet { west: v, ..s },
        BlockDirection::East => FaceSet { east: v, ..s },
    }
}

impl FaceSet {
    pub fn none() -> (s: FaceSet)
        ensures
            forall|d: BlockDirection| !face_in(s, d),
    {
        FaceSet { down: false, up: false, north: false, south: false, west: false, east: false }
    }

    pub fn get(&self, d: BlockDirection) -> (b: bool)
        ensures
            b == face_in(*self, d),
    {
        match d {
            BlockDirection::Down => self.down,
            BlockDirection::Up => self.up,
            BlockDirection::North => self.north,
            BlockDirection::South => self.south,
            BlockDirection::West => self.west,
            BlockDirection::East => self.east,
        }
    }

    pub fn with(&self, d: BlockDirection, v: bool) -> (s: FaceSet)
        ensures
            s == face_set(*self, d, v),
    {
        match d {
            BlockDirection::Down => FaceSet { down: v, ..*self },
            BlockDirection::Up => FaceSet { up: v, ..*self },
            BlockDirection::North => FaceSet { north: v, ..*self },
            BlockDirection::South => FaceSet { south: v, ..*self },
            BlockDirection::West => FaceSet { west: v, ..*self },
            BlockDirection::East => FaceSet { east: v, ..*self },
        }
    }
}

/// A block state, with every property that the sculk rules read.
#[derive(Clone, Copy, PartialEq, Eq, Structural, Debug, Hash)]
pub struct BlockState {
    pub block: BlockKind,
    /// The faces of a sculk vein.
    pub faces: FaceSet,
    /// Whether a vein, sensor or shrieker holds water.
    pub waterlogged: bool,
    /// Whether a shrieker can summon.
    pub can_summon: bool,
    pub is_air: bool,
    pub is_liquid: bool,
    pub replaceable: bool,
    pub full_cube: bool,
    /// The faces whose side is sturdy.
    pub sturdy: FaceSet,
    /// Tagged `minecraft:sculk_replaceable`.
    pub sculk_replaceable: bool,
    /// Tagged `minecraft:sculk_replaceable_world_gen`.
    pub sculk_replaceable_world_gen: bool,
    /// Whether the block holds water fluid (a water block, or a waterlogged one).
    pub water_fluid: bool,
    /// Whether the water fluid it holds is a source.
    pub fluid_source: bool,
}

/// The default states of the blocks that the rules place.
#[derive(Clone, Copy, PartialEq, Eq, Structural, Debug)]
pub struct SculkPalette {
    pub air: BlockState,
    pub water: BlockState,
    pub sculk: BlockState,
    pub vein: BlockState,
    pub sensor: BlockState,
    pub shrieker: BlockState,
}

/// The palette holds the default states of the blocks it names: each of
/// its block, with no vein faces, not waterlogged; air reads as air, water
/// as a water source, and the shrieker cannot summon.
pub open spec fn palette_valid(p: SculkPalette) -> bool {
    &&& default_state_of(p.air, BlockKind::Air)
    &&& p.air.is_air
    &&& !p.air.water_fluid
    &&& default_state_of(p.water, BlockKind::Water)
    &&& !p.water.is_air
    &&& p.water.water_fluid
    &&& p.water.fluid_source
    &&& default_state_of(p.sculk, BlockKind::Sculk)
    &&& !p.sculk.is_air
    &&& !p.sculk.water_fluid
    &&& default_state_of(p.vein, BlockKind::SculkVein)
    &&& !p.vein.is_air
    &&& !p.vein.water_fluid
    &&& !p.vein.fluid_source
    &&& default_state_of(p.sensor, BlockKind::SculkSensor)
    &&& !p.sensor.water_fluid
    &&& default_state_of(p.shrieker, BlockKind::SculkShrieker)
    &&& !p.shrieker.water_fluid
}

/// `s` is a state of `block` with no vein faces, not waterlogged, that
/// cannot summon.
pub open spec fn default_state_of(s: BlockState, block: BlockKind) -> bool {
    &&& s.block == block
    &&& forall|d: BlockDirection| !#[trigger] face_in(s.faces, d)
    &&& !s.waterlogged
    &&& !s.can_summon
}

fn is_default_state_of(s: &BlockState, block: BlockKind) -> (b: bool)
    ensures
        b == default_state_of(*s, block),
{
    let f = s.faces;
    let no_faces = !f.down && !f.up && !f.north && !f.south && !f.west && !f.east;
    proof {
        if no_faces {
            assert forall|d: BlockDirection| !#[trigger] face_in(s.faces, d) by {
                match d {
                    BlockDirection::Down => {},
                    BlockDirection::Up => {},
                    BlockDirection::North => {},
                    BlockDirection::South => {},
                    BlockDirection::West => {},
                    BlockDirection::East => {},
                }
            }
        } else {
            if f.down { assert(face_in(s.faces, BlockDirection::Down)); }
            if f.up { assert(face_in(s.faces, BlockDirection::Up)); }
            if f.north { assert(face_in(s.faces, BlockDirection::North)); }
            if f.south { assert(face_in(s.faces, BlockDirection::South)); }
            if f.west { assert(face_in(s.faces, BlockDirection::West)); }
            if f.east { assert(face_in(s.faces, BlockDirection::East)); }
        }
    }
    s.block == block && no_faces && !s.waterlogged && !s.can_summon
}

impl SculkPalette {
    /// Whether the palette holds the default states it names (see
    /// `palette_valid`); the levels are built only over such palettes.
    pub fn is_valid(&self) -> (b: bool)
        ensures
            b == palette_valid(*self),
    {
        is_default_state_of(&self.air, BlockKind::Air) && self.air.is_air && !self.air.water_fluid
            && is_default_state_of(&self.water, BlockKind::Water) && !self.water.is_air
            && self.water.water_fluid && self.water.fluid_source
            && is_default_state_of(&self.sculk, BlockKind::Sculk) && !self.sculk.is_air
            && !self.sculk.water_fluid
            && is_default_state_of(&self.vein, BlockKind::SculkVein) && !self.vein.is_air
            && !self.vein.water_fluid && !self.vein.fluid_source
            && is_default_state_of(&self.sensor, BlockKind::SculkSensor)
            && !self.sensor.water_fluid
            && is_default_state_of(&self.shrieker, BlockKind::SculkShrieker)
            && !self.shrieker.water_fluid
    }
}

/// The bounds of a proto chunk: outside them the level reads as nothing
/// and ignores writes.
#[derive(Clone, Copy, PartialEq, Eq, Structural, Debug)]
pub struct ProtoChunkSculkView {
    pub chunk_x: i32,
    pub chunk_z: i32,
    pub bottom_y: i32,
    pub height: i32,
}

pub open spec fn spec_in_bounds(v: ProtoChunkSculkView, pos: BlockPos) -> bool {
    &&& pos.x >> 4u32 == v.chunk_x
    &&& pos.z >> 4u32 == v.chunk_z
    &&& 0 <= pos.y - v.bottom_y < v.height
}

impl ProtoChunkSculkView {
    /// A view over the chunk at `(chunk_x, chunk_z)` whose blocks span
    /// `height` levels from `bottom_y`.
    pub fn new(chunk_x: i32, chunk_z: i32, bottom_y: i32, height: i32) -> (v: ProtoChunkSculkView)
        ensures
            v == (ProtoChunkSculkView { chunk_x, chunk_z, bottom_y, height }),
    {
        ProtoChunkSculkView { chunk_x, chunk_z, bottom_y, height }
    }

    pub fn in_bounds(&self, pos: BlockPos) -> (b: bool)
        ensures
            b == spec_in_bounds(*self, pos),
    {
        if pos.x >> 4u32 != self.chunk_x || pos.z >> 4u32 != self.chunk_z {
            return false;
        }
        let local_y: i64 = pos.y as i64 - self.bottom_y as i64;
        local_y >= 0 && local_y < self.height as i64
    }
}

/// What a sculk level holds: the palette, the chunk bounds if any, the
/// state read at in-bounds positions without a block of their own, and the
/// blocks.
pub struct LevelModel {
    pub palette: SculkPalette,
    /// Whether water is read from the fluid the blocks hold (a generation
    /// cache) rather than from the blocks themselves (a proto chunk).
    pub reads_fluids: bool,
    pub view: Option<ProtoChunkSculkView>,
    pub fill: Option<BlockState>,
    pub cells: Map<u128, BlockState>,
}

pub open spec fn in_level(m: LevelModel, pos: BlockPos) -> bool {
    match m.view {
        Some(v) => spec_in_bounds(v, pos),
        None => true,
    }
}

/// The state at `pos`, or nothing outside the chunk (or at an unknown
/// position without a fill state).
pub open spec fn lget(m: LevelModel, pos: BlockPos) -> Option<BlockState> {
    if !in_level(m, pos) {
        None
    } else if m.cells.contains_key(block_key(pos)) {
        Some(m.cells[block_key(pos)])
    } else {
        m.fill
    }
}

/// The level after writing `s` at `pos`; writes outside the chunk are lost.
pub open spec fn lset(m: LevelModel, pos: BlockPos, s: BlockState) -> LevelModel {
    if !in_level(m, pos) {
        m
    } else {
        LevelModel { cells: m.cells.insert(block_key(pos), s), ..m }
    }
}

pub open spec fn spec_is_waterlogged_vein(s: BlockState) -> bool {
    s.block == BlockKind::SculkVein && s.waterlogged
}

pub open spec fn lis_air(m: LevelModel, pos: BlockPos) -> bool {
    match lget(m, pos) {
        None => true,
        Some(s) => s.is_air,
    }
}

pub open spec fn lis_water_source(m: LevelModel, pos: BlockPos) -> bool {
    match lget(m, pos) {
        None => false,
        Some(s) => if m.reads_fluids { s.water_fluid && s.fluid_source } else { s.block == BlockKind::Water },
    }
}

pub open spec fn lis_water(m: LevelModel, pos: BlockPos) -> bool {
    match lget(m, pos) {
        None => false,
        Some(s) => if m.reads_fluids {
            s.water_fluid
        } else {
            s.block == BlockKind::Water || spec_is_waterlogged_vein(s)
        },
    }
}

pub open spec fn lis_face_sturdy(m: LevelModel, pos: BlockPos, face: BlockDirection) -> bool {
    match lget(m, pos) {
        None => false,
        Some(s) => face_in(s.sturdy, face),
    }
}

pub open spec fn lis_full_cube(m: LevelModel, pos: BlockPos) -> bool {
    match lget(m, pos) {
        None => false,
        Some(s) => s.full_cube,
    }
}

/// The level that the sculk rules read and write.
pub struct SculkLevel {
    palette: SculkPalette,
    reads_fluids: bool,
    view: Option<ProtoChunkSculkView>,
    fill: Option<BlockState>,
    blocks: HashMap<u128, BlockState>,
}

impl SculkLevel {
    /// Every level is built over a valid palette.
    #[verifier::type_invariant]
    pub closed spec fn palette_is_valid(self) -> bool {
        palette_valid(self.palette)
    }
}

impl View for SculkLevel {
    type V = LevelModel;

    closed spec fn view(&self) -> LevelModel {
        LevelModel {
            palette: self.palette,
            reads_fluids: self.reads_fluids,
            view: self.view,
            fill: self.fill,
            cells: self.blocks@,
        }
    }
}

impl SculkLevel {
    /// An unbounded level where unknown positions read as nothing and water
    /// is read from the blocks.
    pub fn new(palette: SculkPalette) -> (l: SculkLevel)
        requires
            palette_valid(palette),
        ensures
            l@.palette == palette,
            !l@.reads_fluids,
            l@.view is None,
            l@.fill is None,
            l@.cells.is_empty(),
    {
        SculkLevel { palette, reads_fluids: false, view: None, fill: None, blocks: HashMap::new() }
    }

    /// A level over a proto chunk, whose in-bounds positions without a
    /// block of their own read as `fill`; water is read from the blocks.
    pub fn proto_chunk(palette: SculkPalette, view: ProtoChunkSculkView, fill: BlockState) -> (l: SculkLevel)
        requires
            palette_valid(palette),
        ensures
            l@.palette == palette,
            !l@.reads_fluids,
            l@.view == Some(view),
            l@.fill == Some(fill),
            l@.cells.is_empty(),
    {
        SculkLevel { palette, reads_fluids: false, view: Some(view), fill: Some(fill), blocks: HashMap::new() }
    }

    /// An unbounded level over a generation cache, where every position
    /// without a block of its own reads as `fill` and water is read from the
    /// fluid that blocks hold.
    pub fn generation_cache(palette: SculkPalette, fill: BlockState) -> (l: SculkLevel)
        requires
            palette_valid(palette),
        ensures
            l@.palette == palette,
            l@.reads_fluids,
            l@.view is None,
            l@.fill == Some(fill),
            l@.cells.is_empty(),
    {
        SculkLevel { palette, reads_fluids: true, view: None, fill: Some(fill), blocks: HashMap::new() }
    }

    pub fn palette(&self) -> (p: SculkPalette)
        ensures
            p == self@.palette,
            palette_valid(p),
    {
        proof {
            use_type_invariant(self);
        }
        self.palette
    }

    fn in_level(&self, pos: BlockPos) -> (b: bool)
        ensures
            b == in_level(self@, pos),
    {
        match &self.view {
            Some(v) => v.in_bounds(pos),
            None => true,
        }
    }

    /// The state at `pos`.
    pub fn sculk_get(&self, pos: BlockPos) -> (s: Option<BlockState>)
        ensures
            s == lget(self@, pos),
    {
        if !self.in_level(pos) {
            return None;
        }
        match self.blocks.get(&block_key_of(pos)) {
            Some(s) => Some(*s),
            None => self.fill,
        }
    }

    /// Writes `state` at `pos`; nothing happens outside the chunk.
    pub fn sculk_set(&mut self, pos: BlockPos, state: BlockState)
        ensures
            final(self)@ == lset(old(self)@, pos, state),
    {
        proof {
            use_type_invariant(&*self);
        }
        if self.in_level(pos) {
            let mut blocks: HashMap<u128, BlockState> = HashMap::new();
            std::mem::swap(&mut blocks, &mut self.blocks);
            blocks.insert(block_key_of(pos), state);
            std::mem::swap(&mut blocks, &mut self.blocks);
        }
        proof {
            if !in_level(old(self)@, pos) {
                assert(self.blocks@ == old(self).blocks@);
            }
        }
    }

    pub fn sculk_is_air(&self, pos: BlockPos) -> (b: bool)
        ensures
            b == lis_air(self@, pos),
    {
        match self.sculk_get(pos) {
            None => true,
            Some(s) => s.is_air,
        }
    }

    pub fn sculk_is_water_source(&self, pos: BlockPos) -> (b: bool)
        ensures
            b == lis_water_source(self@, pos),
    {
        match self.sculk_get(pos) {
            None => false,
            Some(s) => if self.reads_fluids {
                s.water_fluid && s.fluid_source
            } else {
                s.block == BlockKind::Water
            },
        }
    }

    pub fn sculk_is_water(&self, pos: BlockPos) -> (b: bool)
        ensures
            b == lis_water(self@, pos),
    {
        match self.sculk_get(pos) {
            None => false,
            Some(s) => if self.reads_fluids {
                s.water_fluid
            } else {
                s.block == BlockKind::Water || is_waterlogged_vein(s)
            },
        }
    }

    pub fn sculk_is_face_sturdy(&self, pos: BlockPos, face: BlockDirection) -> (b: bool)
        ensures
            b == lis_face_sturdy(self@, pos, face),
    {
        match self.sculk_get(pos) {
            None => false,
            Some(s) => s.sturdy.get(face),
        }
    }

    pub fn sculk_is_full_cube(&self, pos: BlockPos) -> (b: bool)
        ensures
            b == lis_full_cube(self@, pos),
    {
        match self.sculk_get(pos) {
            None => false,
            Some(s) => s.full_cube,
        }
    }
}

/// The 18 neighbours of a block that are not corners: every offset of the
/// 3 by 3 by 3 cube with at least one zero coordinate, except the centre.
pub open spec fn spec_non_corner_neighbours() -> Seq<(int, int, int)> {
    seq![
        (-1, 0, 0), (1, 0, 0), (0, -1, 0), (0, 1, 0), (0, 0, -1), (0, 0, 1),
        (-1, 0, -1), (-1, 0, 1), (1, 0, -1), (1, 0, 1),
        (-1, -1, 0), (-1, 1, 0), (1, -1, 0), (1, 1, 0),
        (0, -1, -1), (0, -1, 1), (0, 1, -1), (0, 1, 1),
    ]
}

/// The non-corner neighbour offsets: first the six faces, then the edges in
/// the same horizontal plane, then the vertical edges along x, then along z.
pub fn non_corner_neighbours() -> (n: Vec<(i32, i32, i32)>)
    ensures
        n.len() == 18,
        forall|i: int|
            0 <= i < 18 ==> ((#[trigger] n@[i]).0 as int, n@[i].1 as int, n@[i].2 as int)
                == spec_non_corner_neighbours()[i],
{
    let n: Vec<(i32, i32, i32)> = vec![
        (-1, 0, 0), (1, 0, 0), (0, -1, 0), (0, 1, 0), (0, 0, -1), (0, 0, 1),
        (-1, 0, -1), (-1, 0, 1), (1, 0, -1), (1, 0, 1),
        (-1, -1, 0), (-1, 1, 0), (1, -1, 0), (1, 1, 0),
        (0, -1, -1), (0, -1, 1), (0, 1, -1), (0, 1, 1),
    ];
    assert(forall|i: int|
        0 <= i < 18 ==> ((#[trigger] n@[i]).0 as int, n@[i].1 as int, n@[i].2 as int)
            == spec_non_corner_neighbours()[i]);
    n
}

/// Whether a vein state holds water.
pub fn is_waterlogged_vein(state: BlockState) -> (b: bool)
    ensures
        b == spec_is_waterlogged_vein(state),
{
    state.block == BlockKind::SculkVein && state.waterlogged
}

pub open spec fn spec_is_sculk_behaviour(k: BlockKind) -> bool {
    k == BlockKind::Sculk || k == BlockKind::SculkVein
}

/// Only sculk and sculk veins behave like sculk when a cursor visits them.
pub fn is_sculk_behaviour(id: BlockKind) -> (b: bool)
    ensures
        b == spec_is_sculk_behaviour(id),
{
    id == BlockKind::Sculk || id == BlockKind::SculkVein
}

/// Whether the state is tagged `minecraft:sculk_replaceable`.
pub fn is_sculk_replaceable(state: BlockState) -> (b: bool)
    ensures
        b == state.sculk_replaceable,
{
    state.sculk_replaceable
}

/// Whether the state is tagged `minecraft:sculk_replaceable_world_gen`.
pub fn is_sculk_replaceable_world_gen(state: BlockState) -> (b: bool)
    ensures
        b == state.sculk_replaceable_world_gen,
{
    state.sculk_replaceable_world_gen
}

/// The block at a position, air where there is nothing.
pub fn sculk_block_id(level: &SculkLevel, pos: BlockPos) -> (k: BlockKind)
    ensures
        k == match lget(level@, pos) {
            Some(s) => s.block,
            None => BlockKind::Air,
        },
{
    match level.sculk_get(pos) {
        Some(s) => s.block,
        None => BlockKind::Air,
    }
}

/// The shrieker state placed by the extra-rare growths.
pub fn shrieker_state(palette: &SculkPalette, can_summon: bool) -> (s: BlockState)
    requires
        palette_valid(*palette),
    ensures
        s == (BlockState { can_summon, ..palette.shrieker }),
{
    BlockState { can_summon, ..palette.shrieker }
}

/// Some neighbour across a face of `pos` is a full cube.
pub open spec fn has_full_cube_neighbour(m: LevelModel, pos: BlockPos) -> bool {
    exists|i: int| 0 <= i < 6 && lis_full_cube(m, #[trigger] neighbour(pos, dir_at(i)))
}

/// A patch can start at `pos` when it holds sculk or a vein, or when it is
/// air or a water block holding a source next to a full cube.
pub open spec fn spec_can_spread_from(m: LevelModel, pos: BlockPos) -> bool {
    match lget(m, pos) {
        None => false,
        Some(s) => spec_is_sculk_behaviour(s.block) || ((lis_air(m, pos) || (s.block == BlockKind::Water
            && lis_water_source(m, pos))) && has_full_cube_neighbour(m, pos)),
    }
}

/// Whether a sculk patch can originate at `pos`.
pub fn can_spread_from(level: &SculkLevel, pos: BlockPos) -> (b: bool)
    requires
        block_pos_fits(pos, 1),
    ensures
        b == spec_can_spread_from(level@, pos),
{
    let state = match level.sculk_get(pos) {
        None => {
            return false;
        },
        Some(s) => s,
    };
    let block_id = state.block;
    if is_sculk_behaviour(block_id) {
        return true;
    }
    if !(level.sculk_is_air(pos) || block_id == BlockKind::Water && level.sculk_is_water_source(pos)) {
        return false;
    }
    let dirs = BlockDirection::all();
    let mut i: usize = 0;
    while i < 6
        invariant
            block_pos_fits(pos, 1),
            lget(level@, pos) == Some(state),
            !spec_is_sculk_behaviour(state.block),
            lis_air(level@, pos) || (state.block == BlockKind::Water && lis_water_source(level@, pos)),
            forall|q: int| 0 <= q < 6 ==> #[trigger] dirs@[q] == dir_at(q),
            i <= 6,
            forall|q: int| 0 <= q < i ==> !lis_full_cube(level@, #[trigger] neighbour(pos, dir_at(q))),
        decreases 6 - i,
    {
        if level.sculk_is_full_cube(pos.offset_dir(dirs[i])) {
            assert(lis_full_cube(level@, neighbour(pos, dir_at(i as int))));
            return true;
        }
        i = i + 1;
    }
    false
}

/// Which positions can start a sculk patch: one holding sculk or a vein
/// always can; one holding nothing, or a block that is neither air nor a
/// water block, never can; air or a water block holding a source can
/// exactly when one of its six neighbours is a full cube.
pub proof fn lemma_spread_origins(m: LevelModel, pos: BlockPos)
    ensures
        lget(m, pos) matches Some(s) && (s.block == BlockKind::Sculk || s.block == BlockKind::SculkVein)
            ==> spec_can_spread_from(m, pos),
        lget(m, pos) is None ==> !spec_can_spread_from(m, pos),
        lget(m, pos) matches Some(s) && s.block != BlockKind::Sculk && s.block != BlockKind::SculkVein
            && !s.is_air && s.block != BlockKind::Water ==> !spec_can_spread_from(m, pos),
        lget(m, pos) matches Some(s) && s.block != BlockKind::Sculk && s.block != BlockKind::SculkVein && (s.is_air
            || (s.block == BlockKind::Water && lis_water_source(m, pos))) ==> (spec_can_spread_from(m, pos)
            <==> exists|d: BlockDirection| #[trigger] lis_full_cube(m, neighbour(pos, d))),
{
    if exists|d: BlockDirection| #[trigger] lis_full_cube(m, neighbour(pos, d)) {
        let d = choose|d: BlockDirection| #[trigger] lis_full_cube(m, neighbour(pos, d));
        let i: int = match d {
            BlockDirection::Down => 0,
            BlockDirection::Up => 1,
            BlockDirection::North => 2,
            BlockDirection::South => 3,
            BlockDirection::West => 4,
            BlockDirection::East => 5,
        };
        assert(dir_at(i) == d);
        assert(lis_full_cube(m, neighbour(pos, dir_at(i))));
    }
}

} // verus!
