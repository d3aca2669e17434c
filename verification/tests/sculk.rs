use pumpkin_world::block_pos::{BlockDirection, BlockPos};
use pumpkin_world::sculk::growth::GrowthRules;
use pumpkin_world::sculk::vein::{SpreadType, VeinRules};
use pumpkin_world::sculk::{
    can_spread_from, is_sculk_behaviour, sculk_block_id, shrieker_state, BlockKind, BlockState,
    FaceSet, ProtoChunkSculkView, SculkLevel, SculkPalette,
};
use pumpkin_world::sculk_patch::place_extra_rare_growths;

fn faces(all: bool) -> FaceSet {
    FaceSet { down: all, up: all, north: all, south: all, west: all, east: all }
}

fn plain(block: BlockKind) -> BlockState {
    BlockState {
        block,
        faces: faces(false),
        waterlogged: false,
        can_summon: false,
        is_air: false,
        is_liquid: false,
        replaceable: false,
        full_cube: false,
        sturdy: faces(false),
        sculk_replaceable: false,
        sculk_replaceable_world_gen: false,
        water_fluid: false,
        fluid_source: false,
    }
}

fn air() -> BlockState {
    BlockState { is_air: true, replaceable: true, ..plain(BlockKind::Air) }
}

fn cave_air() -> BlockState {
    BlockState { is_air: true, replaceable: true, ..plain(BlockKind::Other(1)) }
}

fn water() -> BlockState {
    BlockState {
        is_liquid: true,
        replaceable: true,
        water_fluid: true,
        fluid_source: true,
        ..plain(BlockKind::Water)
    }
}

fn stone() -> BlockState {
    BlockState {
        full_cube: true,
        sturdy: faces(true),
        sculk_replaceable: true,
        sculk_replaceable_world_gen: true,
        ..plain(BlockKind::Other(2))
    }
}

fn oak_slab() -> BlockState {
    BlockState { sturdy: FaceSet { down: true, ..faces(false) }, ..plain(BlockKind::Other(3)) }
}

fn sculk() -> BlockState {
    BlockState { full_cube: true, sturdy: faces(true), ..plain(BlockKind::Sculk) }
}

fn vein() -> BlockState {
    BlockState { replaceable: true, ..plain(BlockKind::SculkVein) }
}

fn sensor() -> BlockState {
    plain(BlockKind::SculkSensor)
}

fn calibrated_sensor() -> BlockState {
    plain(BlockKind::CalibratedSculkSensor)
}

fn shrieker() -> BlockState {
    plain(BlockKind::SculkShrieker)
}

fn palette() -> SculkPalette {
    SculkPalette {
        air: air(),
        water: water(),
        sculk: sculk(),
        vein: vein(),
        sensor: sensor(),
        shrieker: shrieker(),
    }
}

fn mock() -> SculkLevel {
    SculkLevel::new(palette())
}

fn offset(p: BlockPos, d: BlockDirection) -> BlockPos {
    p.offset_dir(d)
}

#[test]
fn shrieker_state_default() {
    let props = palette().shrieker;
    assert!(!props.can_summon);
    assert!(!shrieker_state(&palette(), false).can_summon);
    assert!(shrieker_state(&palette(), true).can_summon);
}

#[test]
fn can_place_growth_accepts_air_like_states() {
    let mut level = mock();
    let pos = BlockPos::new(0, 60, 0);
    level.sculk_set(pos.up(), cave_air());
    assert!(GrowthRules::can_place_growth(&level, pos));
}

#[test]
fn can_place_growth_accepts_water_above() {
    let mut level = mock();
    let pos = BlockPos::new(0, 60, 0);
    level.sculk_set(pos.up(), water());
    assert!(GrowthRules::can_place_growth(&level, pos));
}

#[test]
fn density_ignores_calibrated_sensors() {
    let mut level = mock();
    let pos = BlockPos::new(0, 60, 0);
    level.sculk_set(pos.up(), air());
    for dx in 0..3 {
        level.sculk_set(pos.offset(dx, 0, 0), calibrated_sensor());
    }
    assert!(GrowthRules::can_place_growth(&level, pos));
}

#[test]
fn density_blocks_after_two_sensors_or_shriekers() {
    let mut level = mock();
    let pos = BlockPos::new(0, 60, 0);
    level.sculk_set(pos.up(), air());
    for dx in 0..2 {
        level.sculk_set(pos.offset(dx, 0, 0), sensor());
    }
    assert!(GrowthRules::can_place_growth(&level, pos));
    level.sculk_set(pos.offset(2, 0, 0), shrieker());
    assert!(!GrowthRules::can_place_growth(&level, pos));
}

#[test]
fn can_spread_from_water_source_origin() {
    let mut level = mock();
    let origin = BlockPos::new(0, 60, 0);
    level.sculk_set(origin, water());
    level.sculk_set(origin.up(), stone());
    assert!(can_spread_from(&level, origin));
}

#[test]
fn can_spread_from_rejects_solid_origin() {
    let mut level = mock();
    let origin = BlockPos::new(0, 60, 0);
    level.sculk_set(origin, stone());
    assert!(!can_spread_from(&level, origin));
}

#[test]
fn sculk_behaviour_implementations() {
    assert!(is_sculk_behaviour(BlockKind::Sculk));
    assert!(is_sculk_behaviour(BlockKind::SculkVein));
    assert!(!is_sculk_behaviour(BlockKind::SculkCatalyst));
    assert!(!is_sculk_behaviour(BlockKind::SculkSensor));
    assert!(!is_sculk_behaviour(BlockKind::CalibratedSculkSensor));
    assert!(!is_sculk_behaviour(BlockKind::SculkShrieker));
}

#[test]
fn can_spread_from_rejects_waterlogged_non_water_origin() {
    let origin = BlockPos::new(0, 60, 0);
    let mut level = SculkLevel::generation_cache(palette(), air());
    level.sculk_set(origin, BlockState { water_fluid: true, fluid_source: true, ..oak_slab() });
    level.sculk_set(origin.up(), stone());
    assert!(level.sculk_is_water_source(origin));
    assert!(!can_spread_from(&level, origin));
}

#[test]
fn can_spread_from_rejects_sensor_origin() {
    let mut level = mock();
    let origin = BlockPos::new(0, 60, 0);
    level.sculk_set(origin, sensor());
    assert!(!can_spread_from(&level, origin));
}

#[test]
fn spread_all_ignores_faces_added_during_call() {
    let mut level = mock();
    let pal = palette();
    let pos = BlockPos::new(0, 60, 0);
    let base = VeinRules::with_face(&pal, pal.vein, BlockDirection::Down, true);
    level.sculk_set(pos, base);
    level.sculk_set(offset(pos, BlockDirection::Down), stone());
    level.sculk_set(offset(pos, BlockDirection::North), stone());
    level.sculk_set(offset(pos, BlockDirection::Up), stone());
    assert!(VeinRules::spread_all(&mut level, pos));
    let result = level.sculk_get(pos).expect("vein persists");
    assert!(VeinRules::has_face(result, BlockDirection::Down));
    assert!(VeinRules::has_face(result, BlockDirection::North));
    assert!(!VeinRules::has_face(result, BlockDirection::Up));
}

#[test]
fn discharged_waterlogged_vein_restores_water_in_proto_view() {
    let view = ProtoChunkSculkView::new(0, 0, -64, 384);
    let pal = palette();
    let mut level = SculkLevel::proto_chunk(pal, view, air());
    let pos = BlockPos::new(0, 60, 0);
    let waterlogged = VeinRules::with_waterlogged(&pal, pal.vein, true);
    level.sculk_set(pos, waterlogged);
    VeinRules::on_discharged(&mut level, pos);
    assert!(level.sculk_get(pos).is_some_and(|s| s.block == BlockKind::Water));
}

#[test]
fn spread_type_same_position() {
    let pos = BlockPos::new(10, 60, 10);
    let (p, f) = SpreadType::SamePosition.spread_pos(pos, BlockDirection::Up, BlockDirection::North);
    assert_eq!(p, pos);
    assert_eq!(f, BlockDirection::Up);
}

#[test]
fn spread_type_same_plane() {
    let pos = BlockPos::new(10, 60, 10);
    let (p, f) = SpreadType::SamePlane.spread_pos(pos, BlockDirection::East, BlockDirection::North);
    assert_eq!(p, BlockPos::new(11, 60, 10));
    assert_eq!(f, BlockDirection::North);
}

#[test]
fn spread_type_wrap_around() {
    let pos = BlockPos::new(10, 60, 10);
    let (p, f) = SpreadType::WrapAround.spread_pos(pos, BlockDirection::East, BlockDirection::North);
    assert_eq!(p, BlockPos::new(11, 60, 9));
    assert_eq!(f, BlockDirection::West);
}

#[test]
fn has_face_bit_operations() {
    let pal = palette();
    let base = pal.vein;
    assert!(!VeinRules::has_any_face(base));
    let with_up = VeinRules::with_face(&pal, base, BlockDirection::Up, true);
    assert!(VeinRules::has_face(with_up, BlockDirection::Up));
    assert!(!VeinRules::has_face(with_up, BlockDirection::Down));
    let removed = VeinRules::with_face(&pal, with_up, BlockDirection::Up, false);
    assert!(!VeinRules::has_any_face(removed));
}

#[test]
fn proto_view_reads_nothing_outside_the_chunk() {
    let view = ProtoChunkSculkView::new(0, 0, -64, 384);
    assert!(view.in_bounds(BlockPos::new(15, 0, 0)));
    assert!(!view.in_bounds(BlockPos::new(16, 0, 0)));
    assert!(!view.in_bounds(BlockPos::new(-1, 0, 0)));
    assert!(!view.in_bounds(BlockPos::new(0, 320, 0)));
    let mut level = SculkLevel::proto_chunk(palette(), view, air());
    level.sculk_set(BlockPos::new(20, 0, 0), stone());
    assert!(level.sculk_get(BlockPos::new(20, 0, 0)).is_none());
    assert_eq!(sculk_block_id(&level, BlockPos::new(20, 0, 0)), BlockKind::Air);
    assert_eq!(level.sculk_get(BlockPos::new(1, 0, 1)), Some(air()));
}

#[test]
fn place_sculk_turns_support_into_sculk() {
    let mut level = mock();
    let pal = palette();
    let pos = BlockPos::new(0, 60, 0);
    level.sculk_set(pos, VeinRules::with_face(&pal, pal.vein, BlockDirection::Down, true));
    level.sculk_set(offset(pos, BlockDirection::Down), stone());
    // rolls keep the registry order: each swaps a position with itself
    let rolls = vec![5, 4, 3, 2, 1];
    assert!(VeinRules::attempt_place_sculk(&mut level, pos, &rolls, false));
    assert_eq!(level.sculk_get(offset(pos, BlockDirection::Down)).map(|s| s.block), Some(BlockKind::Sculk));
    // the vein that placed the sculk is not discharged
    let v = level.sculk_get(pos).expect("vein stays");
    assert!(VeinRules::has_face(v, BlockDirection::Down));
}

#[test]
fn place_sculk_needs_a_replaceable_support() {
    let mut level = mock();
    let pal = palette();
    let pos = BlockPos::new(0, 60, 0);
    level.sculk_set(pos, VeinRules::with_face(&pal, pal.vein, BlockDirection::Down, true));
    level.sculk_set(offset(pos, BlockDirection::Down), sculk());
    let rolls = vec![0, 0, 0, 0, 0];
    assert!(!VeinRules::attempt_place_sculk(&mut level, pos, &rolls, true));
}

#[test]
fn regrow_with_face_bits() {
    let mut level = mock();
    let pos = BlockPos::new(0, 60, 0);
    level.sculk_set(pos, air());
    level.sculk_set(offset(pos, BlockDirection::Down), stone());
    // bits for Down and Up; only Down can attach
    assert!(VeinRules::attempt_spread_vein(&mut level, pos, None, Some(0b11)));
    let s = level.sculk_get(pos).expect("vein");
    assert!(VeinRules::has_face(s, BlockDirection::Down));
    assert!(!VeinRules::has_face(s, BlockDirection::Up));
    // a solid block is neither air nor water: no regrowth
    level.sculk_set(pos, stone());
    assert!(!VeinRules::attempt_spread_vein(&mut level, pos, None, Some(0b1)));
}

#[test]
fn substrate_access_needs_a_replaceable_neighbour() {
    let mut level = mock();
    let pal = palette();
    let pos = BlockPos::new(0, 60, 0);
    let v = VeinRules::with_face(&pal, pal.vein, BlockDirection::Down, true);
    level.sculk_set(offset(pos, BlockDirection::Down), stone());
    assert!(VeinRules::has_substrate_access(&level, v, pos));
    level.sculk_set(offset(pos, BlockDirection::Down), sculk());
    assert!(!VeinRules::has_substrate_access(&level, v, pos));
}

#[test]
fn random_growth_state_rolls() {
    let mut level = mock();
    let pos = BlockPos::new(0, 60, 0);
    level.sculk_set(pos, water());
    let s = GrowthRules::random_growth_state(&level, pos, 0, true);
    assert_eq!(s.block, BlockKind::SculkShrieker);
    assert!(s.can_summon && s.waterlogged);
    let t = GrowthRules::random_growth_state(&level, BlockPos::new(5, 60, 5), 7, true);
    assert_eq!(t, sensor());
}

#[test]
fn extra_rare_growths_need_air_on_sturdy_ground() {
    let mut level = mock();
    let pos = BlockPos::new(0, 60, 0);
    level.sculk_set(BlockPos::new(-2, 60, -2), air());
    level.sculk_set(BlockPos::new(-2, 59, -2), stone());
    level.sculk_set(BlockPos::new(2, 60, 2), air());
    level.sculk_set(BlockPos::new(2, 59, 2), air());
    place_extra_rare_growths(&mut level, pos, &vec![(0, 0), (4, 4)]);
    let placed = level.sculk_get(BlockPos::new(-2, 60, -2)).expect("placed");
    assert_eq!(placed.block, BlockKind::SculkShrieker);
    assert!(placed.can_summon);
    assert_eq!(level.sculk_get(BlockPos::new(2, 60, 2)), Some(air()));
}

#[test]
fn palette_validity() {
    assert!(palette().is_valid());
    let odd_water = SculkPalette { water: plain(BlockKind::Other(7)), ..palette() };
    assert!(!odd_water.is_valid());
    let faced_vein = SculkPalette { vein: BlockState { faces: faces(true), ..vein() }, ..palette() };
    assert!(!faced_vein.is_valid());
    let summoning = SculkPalette { shrieker: BlockState { can_summon: true, ..shrieker() }, ..palette() };
    assert!(!summoning.is_valid());
}

#[test]
fn with_face_sets_one_face_only() {
    let pal = palette();
    let s = VeinRules::with_face(&pal, pal.vein, BlockDirection::North, true);
    let t = VeinRules::with_face(&pal, s, BlockDirection::East, true);
    assert_eq!(t.block, BlockKind::SculkVein);
    assert!(VeinRules::has_face(t, BlockDirection::North));
    assert!(VeinRules::has_face(t, BlockDirection::East));
    assert!(!VeinRules::has_face(t, BlockDirection::Up));
    // setting a face twice keeps the last value
    let twice = VeinRules::with_face(&pal, t, BlockDirection::East, false);
    assert_eq!(twice, VeinRules::with_face(&pal, s, BlockDirection::East, false));
    assert_eq!(twice, s);
    // setting a face to what it is changes nothing
    assert_eq!(VeinRules::with_face(&pal, t, BlockDirection::North, true), t);
}

#[test]
fn waterlogged_vein_holds_a_water_source() {
    let pal = palette();
    let w = VeinRules::with_waterlogged(&pal, pal.vein, true);
    assert!(w.waterlogged && w.water_fluid && w.fluid_source);
    let pos = BlockPos::new(0, 60, 0);
    let mut level = SculkLevel::generation_cache(pal, air());
    level.sculk_set(pos, w);
    assert!(level.sculk_is_water(pos));
    assert!(level.sculk_is_water_source(pos));
    let dry = VeinRules::with_waterlogged(&pal, w, false);
    assert_eq!(dry, pal.vein);
}

#[test]
fn can_place_growth_at_the_lowest_height() {
    let mut level = mock();
    let pos = BlockPos::new(0, i32::MIN, 0);
    level.sculk_set(pos.up(), air());
    assert!(GrowthRules::can_place_growth(&level, pos));
    level.sculk_set(BlockPos::new(1, i32::MIN, 1), sensor());
    level.sculk_set(BlockPos::new(-1, i32::MIN + 2, 1), sensor());
    level.sculk_set(BlockPos::new(4, i32::MIN + 1, -4), sensor());
    assert!(!GrowthRules::can_place_growth(&level, pos));
}

#[test]
fn waterlogged_growth_holds_water() {
    let mut level = mock();
    let pos = BlockPos::new(0, 60, 0);
    level.sculk_set(pos, water());
    let s = GrowthRules::random_growth_state(&level, pos, 3, false);
    assert_eq!(s.block, BlockKind::SculkSensor);
    assert!(s.waterlogged && s.water_fluid && s.fluid_source);
}
