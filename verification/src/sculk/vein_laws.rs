//! Laws of the vein rules, stated over the blocks of the level: which
//! blocks spreading, discharging and placing sculk may change, and how.

use vstd::prelude::*;
use crate::block_pos::{
    block_pos_fits, dir_at, dir_axis, dir_index, dir_offset, dir_opposite, neighbour, BlockDirection,
    BlockPos,
};
use crate::sculk::{
    face_in, face_set, in_level, lget, lis_face_sturdy, lis_water, lis_water_source, lset, palette_valid, BlockKind, BlockState, FaceSet,
    LevelModel,
};
use crate::sculk::vein::{
    all_spread_types, bit_faces, face_steps, discharge_around, regrow_state, discharge_faces, place_from, same_space_types,
    spec_attempt_place_sculk, spec_attempt_spread_vein, spec_can_spread_from_face, spec_can_spread_into,
    spec_has_any_face, spec_has_face, spec_has_substrate_access, valid_rolls, spec_on_discharged, spec_spread_pos, spec_spread_with_types,
    spec_state_for_placement, shuffled, spread_face, spread_faces, spread_in_direction, tag_replaceable,
    SpreadType,
};

verus! {

broadcast use crate::block_pos::lemma_block_key_injective;

/// `m2` differs from `m` only in blocks within `k` face steps of `pos`,
/// each of which is now a vein; the palette and the bounds are kept.
pub open spec fn veins_within(m: LevelModel, m2: LevelModel, pos: BlockPos, k: int) -> bool {
    &&& m2.palette == m.palette
    &&& m2.reads_fluids == m.reads_fluids
    &&& m2.view == m.view
    &&& m2.fill == m.fill
    &&& forall|q: BlockPos|
        #[trigger] lget(m2, q) != lget(m, q) ==> face_steps(pos, q) <= k && (lget(m2, q) matches Some(
            s,
        ) && s.block == BlockKind::SculkVein)
}

/// How far from its source a spread with these types can reach: nowhere
/// but the source itself when every type is the same position, two face
/// steps otherwise.
pub open spec fn spread_reach(types: Seq<SpreadType>) -> int {
    if forall|i: int| 0 <= i < types.len() ==> #[trigger] types[i] == SpreadType::SamePosition {
        0
    } else {
        2
    }
}

proof fn lemma_veins_within_trans(m: LevelModel, m1: LevelModel, m2: LevelModel, pos: BlockPos, k: int)
    requires
        veins_within(m, m1, pos, k),
        veins_within(m1, m2, pos, k),
    ensures
        veins_within(m, m2, pos, k),
{
    assert forall|q: BlockPos| #[trigger] lget(m2, q) != lget(m, q) implies face_steps(pos, q) <= k && (lget(
        m2,
        q,
    ) matches Some(s) && s.block == BlockKind::SculkVein) by {
        if lget(m2, q) == lget(m1, q) {
            assert(lget(m1, q) != lget(m, q));
        }
    }
}

proof fn lemma_place_vein(m: LevelModel, tp: BlockPos, st: BlockState, pos: BlockPos, k: int)
    requires
        face_steps(pos, tp) <= k,
        st.block == BlockKind::SculkVein,
    ensures
        veins_within(m, lset(m, tp, st), pos, k),
{
    let m2 = lset(m, tp, st);
    assert forall|q: BlockPos| #[trigger] lget(m2, q) != lget(m, q) implies face_steps(pos, q) <= k && (lget(
        m2,
        q,
    ) matches Some(s) && s.block == BlockKind::SculkVein) by {
        if q != tp {
            assert(crate::block_pos::block_key(q) != crate::block_pos::block_key(tp));
        }
    }
}

/// The face flags after setting one of them.
proof fn lemma_face_set_get(x: FaceSet, a: BlockDirection, v: bool, b: BlockDirection)
    ensures
        face_in(face_set(x, a, v), b) == if b == a { v } else { face_in(x, b) },
{
    match a {
        BlockDirection::Down => {},
        BlockDirection::Up => {},
        BlockDirection::North => {},
        BlockDirection::South => {},
        BlockDirection::West => {},
        BlockDirection::East => {},
    }
}

proof fn lemma_dir_index(d: BlockDirection)
    ensures
        0 <= dir_index(d) < 6,
        dir_at(dir_index(d)) == d,
        forall|i: int| 0 <= i < 6 && #[trigger] dir_at(i) == d ==> i == dir_index(d),
{
    match d {
        BlockDirection::Down => {},
        BlockDirection::Up => {},
        BlockDirection::North => {},
        BlockDirection::South => {},
        BlockDirection::West => {},
        BlockDirection::East => {},
    }
}

/// A placed vein state is a vein, and its faces are those of the vein that
/// was there (if any) and the placement face.
proof fn lemma_placement_faces(m: LevelModel, tp: BlockPos, tf: BlockDirection, old_state: Option<BlockState>)
    requires
        palette_valid(m.palette),
        spec_state_for_placement(m, tp, tf, old_state) is Some,
    ensures
        spec_state_for_placement(m, tp, tf, old_state).unwrap().block == BlockKind::SculkVein,
        forall|f: BlockDirection|
            #[trigger] spec_has_face(spec_state_for_placement(m, tp, tf, old_state).unwrap(), f) ==> f == tf || (
            old_state matches Some(o) && spec_has_face(o, f)),
{
    reveal(spec_state_for_placement);
    let base0 = match old_state {
        Some(s) => if s.block == BlockKind::SculkVein { s } else { m.palette.vein },
        None => m.palette.vein,
    };
    assert forall|f: BlockDirection|
        #[trigger] spec_has_face(spec_state_for_placement(m, tp, tf, old_state).unwrap(), f) implies f == tf || (
        old_state matches Some(o) && spec_has_face(o, f)) by {
        lemma_face_set_get(base0.faces, tf, true, f);
    }
}

proof fn lemma_neighbour_step(p: BlockPos, d: BlockDirection)
    requires
        block_pos_fits(p, 1),
    ensures
        face_steps(p, neighbour(p, d)) == 1,
        neighbour(p, d) != p,
        neighbour(p, d).x == p.x + dir_offset(d).0,
        neighbour(p, d).y == p.y + dir_offset(d).1,
        neighbour(p, d).z == p.z + dir_offset(d).2,
{
}

proof fn lemma_spread_pos_near(t: SpreadType, pos: BlockPos, dir: BlockDirection, from_face: BlockDirection)
    requires
        block_pos_fits(pos, 3),
    ensures
        face_steps(pos, spec_spread_pos(t, pos, dir, from_face).0) <= if t == SpreadType::SamePosition {
            0int
        } else {
            2int
        },
        block_pos_fits(spec_spread_pos(t, pos, dir, from_face).0, 1),
{
    lemma_neighbour_step(pos, dir);
    let n = neighbour(pos, dir);
    lemma_neighbour_step(n, from_face);
}

proof fn lemma_spread_in_direction_within(
    m: LevelModel,
    pos: BlockPos,
    dir: BlockDirection,
    from_face: BlockDirection,
    types: Seq<SpreadType>,
    t: int,
)
    requires
        palette_valid(m.palette),
        block_pos_fits(pos, 3),
    ensures
        veins_within(m, spread_in_direction(m, pos, dir, from_face, types, t).0, pos, spread_reach(types)),
    decreases types.len() - t,
{
    if t < 0 || t >= types.len() {
    } else {
        let (tp, tf) = spec_spread_pos(types[t], pos, dir, from_face);
        let placed = spec_state_for_placement(m, tp, tf, lget(m, tp));
        if spec_can_spread_into(m, pos, tp, tf) && placed is Some {
            lemma_spread_pos_near(types[t], pos, dir, from_face);
            lemma_placement_faces(m, tp, tf, lget(m, tp));
            lemma_place_vein(m, tp, placed.unwrap(), pos, spread_reach(types));
        } else {
            lemma_spread_in_direction_within(m, pos, dir, from_face, types, t + 1);
        }
    }
}

proof fn lemma_spread_face_within(
    m: LevelModel,
    pos: BlockPos,
    source: BlockState,
    from_face: BlockDirection,
    types: Seq<SpreadType>,
    n: int,
)
    requires
        palette_valid(m.palette),
        block_pos_fits(pos, 3),
    ensures
        veins_within(m, spread_face(m, pos, source, from_face, types, n).0, pos, spread_reach(types)),
    decreases n,
{
    if n > 0 {
        lemma_spread_face_within(m, pos, source, from_face, types, n - 1);
        let prev = spread_face(m, pos, source, from_face, types, n - 1);
        let dir = dir_at(n - 1);
        if !(dir_axis(dir) == dir_axis(from_face) || (source.block == BlockKind::SculkVein && spec_has_face(
            source,
            dir,
        ))) {
            lemma_spread_in_direction_within(prev.0, pos, dir, from_face, types, 0);
            lemma_veins_within_trans(
                m,
                prev.0,
                spread_in_direction(prev.0, pos, dir, from_face, types, 0).0,
                pos,
                spread_reach(types),
            );
        }
    }
}

proof fn lemma_spread_faces_within(m: LevelModel, pos: BlockPos, source: BlockState, types: Seq<SpreadType>, n: int)
    requires
        palette_valid(m.palette),
        block_pos_fits(pos, 3),
    ensures
        veins_within(m, spread_faces(m, pos, source, types, n).0, pos, spread_reach(types)),
    decreases n,
{
    if n > 0 {
        lemma_spread_faces_within(m, pos, source, types, n - 1);
        let prev = spread_faces(m, pos, source, types, n - 1);
        let face = dir_at(n - 1);
        if spec_can_spread_from_face(source, face) {
            lemma_spread_face_within(prev.0, pos, source, face, types, 6);
            lemma_veins_within_trans(
                m,
                prev.0,
                spread_face(prev.0, pos, source, face, types, 6).0,
                pos,
                spread_reach(types),
            );
        }
    }
}

/// Spreading from `pos` only places veins, only within two face steps of
/// `pos`, and only at `pos` itself when every spread type is the same
/// position: every other block, the palette and the bounds stay as they
/// were.
pub proof fn lemma_spread_writes_only_nearby_veins(m: LevelModel, pos: BlockPos, types: Seq<SpreadType>)
    requires
        palette_valid(m.palette),
        block_pos_fits(pos, 3),
    ensures
        veins_within(m, spec_spread_with_types(m, pos, types).0, pos, spread_reach(types)),
        spread_reach(types) <= 2,
{
    if let Some(source) = lget(m, pos) {
        lemma_spread_faces_within(m, pos, source, types, 6);
    }
}

/// A vein cursor without face bits spreads only at its own position: no
/// other block changes. With an empty set of bits it spreads the way
/// `spread_all` does.
pub proof fn lemma_cursor_spread(m: LevelModel, pos: BlockPos, state: Option<BlockState>, q: BlockPos)
    requires
        palette_valid(m.palette),
        block_pos_fits(pos, 3),
    ensures
        q != pos ==> lget(spec_attempt_spread_vein(m, pos, state, None).0, q) == lget(m, q),
        spec_attempt_spread_vein(m, pos, state, Some(0u8)) == spec_spread_with_types(m, pos, all_spread_types()),
{
    let types = same_space_types();
    assert(types[0] == SpreadType::SamePosition);
    assert(spread_reach(types) == 0);
    lemma_spread_writes_only_nearby_veins(m, pos, types);
    let m2 = spec_attempt_spread_vein(m, pos, state, None).0;
    if q != pos && lget(m2, q) != lget(m, q) {
        assert(face_steps(pos, q) <= 0);
        assert(q == pos);
    }
}

/// A vein face may not rest on this block: sculk, a sculk catalyst or a
/// moving piston.
pub open spec fn blocks_vein_face(o: Option<BlockState>) -> bool {
    o matches Some(a) && (a.block == BlockKind::Sculk || a.block == BlockKind::SculkCatalyst || a.block
        == BlockKind::MovingPiston)
}

/// The block at `q` in `m2` has vein face `f`, which it did not have in
/// `m`.
pub open spec fn new_face(m: LevelModel, m2: LevelModel, q: BlockPos, f: BlockDirection) -> bool {
    &&& lget(m2, q) matches Some(s) && spec_has_face(s, f)
    &&& !(lget(m, q) matches Some(o) && spec_has_face(o, f))
}

/// Every vein face that `m2` has and `m` had not rests on a block that
/// may carry it.
pub open spec fn new_faces_supported(m: LevelModel, m2: LevelModel) -> bool {
    forall|q: BlockPos, f: BlockDirection|
        #[trigger] new_face(m, m2, q, f) ==> !blocks_vein_face(lget(m2, neighbour(q, f)))
}

proof fn lemma_supported_step(
    m: LevelModel,
    mc: LevelModel,
    tp: BlockPos,
    tf: BlockDirection,
    st: BlockState,
)
    requires
        new_faces_supported(m, mc),
        st.block == BlockKind::SculkVein,
        block_pos_fits(tp, 1),
        forall|f: BlockDirection|
            #[trigger] spec_has_face(st, f) ==> f == tf || (lget(mc, tp) matches Some(o) && spec_has_face(o, f)),
        !blocks_vein_face(lget(mc, neighbour(tp, tf))),
    ensures
        new_faces_supported(m, lset(mc, tp, st)),
{
    let mc2 = lset(mc, tp, st);
    assert forall|q: BlockPos, f: BlockDirection| #[trigger] new_face(m, mc2, q, f) implies !blocks_vein_face(
        lget(mc2, neighbour(q, f)),
    ) by {
        let nb = neighbour(q, f);
        if in_level(mc, tp) && q == tp {
            lemma_neighbour_step(tp, f);
            assert(crate::block_pos::block_key(nb) != crate::block_pos::block_key(tp));
            assert(lget(mc2, tp) == Some(st));
            if f != tf {
                assert(new_face(m, mc, tp, f));
            }
        } else {
            if q != tp {
                assert(crate::block_pos::block_key(q) != crate::block_pos::block_key(tp));
            }
            assert(lget(mc2, q) == lget(mc, q));
            assert(new_face(m, mc, q, f));
            if nb != tp {
                assert(crate::block_pos::block_key(nb) != crate::block_pos::block_key(tp));
            }
        }
    }
}

proof fn lemma_spread_in_direction_supported(
    m0: LevelModel,
    m: LevelModel,
    pos: BlockPos,
    dir: BlockDirection,
    from_face: BlockDirection,
    types: Seq<SpreadType>,
    t: int,
)
    requires
        new_faces_supported(m0, m),
        palette_valid(m.palette),
        block_pos_fits(pos, 3),
    ensures
        new_faces_supported(m0, spread_in_direction(m, pos, dir, from_face, types, t).0),
    decreases types.len() - t,
{
    if t < 0 || t >= types.len() {
    } else {
        let (tp, tf) = spec_spread_pos(types[t], pos, dir, from_face);
        let placed = spec_state_for_placement(m, tp, tf, lget(m, tp));
        if spec_can_spread_into(m, pos, tp, tf) && placed is Some {
            lemma_spread_pos_near(types[t], pos, dir, from_face);
            lemma_placement_faces(m, tp, tf, lget(m, tp));
            reveal(spec_can_spread_into);
            lemma_supported_step(m0, m, tp, tf, placed.unwrap());
        } else {
            lemma_spread_in_direction_supported(m0, m, pos, dir, from_face, types, t + 1);
        }
    }
}

proof fn lemma_spread_face_supported(
    m0: LevelModel,
    m: LevelModel,
    pos: BlockPos,
    source: BlockState,
    from_face: BlockDirection,
    types: Seq<SpreadType>,
    n: int,
)
    requires
        new_faces_supported(m0, m),
        palette_valid(m.palette),
        block_pos_fits(pos, 3),
    ensures
        new_faces_supported(m0, spread_face(m, pos, source, from_face, types, n).0),
    decreases n,
{
    if n > 0 {
        lemma_spread_face_supported(m0, m, pos, source, from_face, types, n - 1);
        lemma_spread_face_within(m, pos, source, from_face, types, n - 1);
        let prev = spread_face(m, pos, source, from_face, types, n - 1);
        let dir = dir_at(n - 1);
        if !(dir_axis(dir) == dir_axis(from_face) || (source.block == BlockKind::SculkVein && spec_has_face(
            source,
            dir,
        ))) {
            lemma_spread_in_direction_supported(m0, prev.0, pos, dir, from_face, types, 0);
        }
    }
}

proof fn lemma_spread_faces_supported(
    m0: LevelModel,
    m: LevelModel,
    pos: BlockPos,
    source: BlockState,
    types: Seq<SpreadType>,
    n: int,
)
    requires
        new_faces_supported(m0, m),
        palette_valid(m.palette),
        block_pos_fits(pos, 3),
    ensures
        new_faces_supported(m0, spread_faces(m, pos, source, types, n).0),
    decreases n,
{
    if n > 0 {
        lemma_spread_faces_supported(m0, m, pos, source, types, n - 1);
        lemma_spread_faces_within(m, pos, source, types, n - 1);
        let prev = spread_faces(m, pos, source, types, n - 1);
        let face = dir_at(n - 1);
        if spec_can_spread_from_face(source, face) {
            lemma_spread_face_supported(m0, prev.0, pos, source, face, types, 6);
        }
    }
}

/// Spreading never places or extends a vein face that rests on sculk, a
/// sculk catalyst or a moving piston: every face that a block has after
/// the spread and did not have before lies against a block that may carry
/// it.
pub proof fn lemma_spread_faces_rest_on_open_supports(m: LevelModel, pos: BlockPos, types: Seq<SpreadType>)
    requires
        palette_valid(m.palette),
        block_pos_fits(pos, 3),
    ensures
        new_faces_supported(m, spec_spread_with_types(m, pos, types).0),
{
    if let Some(source) = lget(m, pos) {
        lemma_spread_faces_supported(m, m, pos, source, types, 6);
    }
}

/// There is a sculk block at `p`.
pub open spec fn sculk_at(m: LevelModel, p: BlockPos) -> bool {
    lget(m, p) matches Some(s) && s.block == BlockKind::Sculk
}

/// After discharging the first `n` directions, a vein keeps exactly those
/// faces that do not rest on sculk among them, and all its other faces.
proof fn lemma_discharge_faces_kept(m: LevelModel, pos: BlockPos, s: BlockState, n: int)
    requires
        palette_valid(m.palette),
        s.block == BlockKind::SculkVein,
        0 <= n <= 6,
    ensures
        discharge_faces(m, pos, s, n).block == BlockKind::SculkVein,
        forall|d: BlockDirection|
            #[trigger] face_in(discharge_faces(m, pos, s, n).faces, d) == (face_in(s.faces, d) && !(dir_index(d)
                < n && sculk_at(m, neighbour(pos, d)))),
    decreases n,
{
    if n > 0 {
        lemma_discharge_faces_kept(m, pos, s, n - 1);
        let prev = discharge_faces(m, pos, s, n - 1);
        let e = dir_at(n - 1);
        lemma_dir_index(e);
        assert forall|d: BlockDirection|
            #[trigger] face_in(discharge_faces(m, pos, s, n).faces, d) == (face_in(s.faces, d) && !(dir_index(d)
                < n && sculk_at(m, neighbour(pos, d)))) by {
            lemma_dir_index(d);
            lemma_face_set_get(prev.faces, e, false, d);
            assert(face_in(prev.faces, d) == (face_in(s.faces, d) && !(dir_index(d) < n - 1 && sculk_at(
                m,
                neighbour(pos, d),
            ))));
        }
    }
}

/// Discharging a vein removes a face exactly when the block that face
/// rests on is sculk: faces resting on sculk are gone, every other face is
/// kept, and no face is added. A vein left without faces turns into water
/// where water is held and into air elsewhere. No other block changes.
pub proof fn lemma_discharge_drops_only_faces_on_sculk(m: LevelModel, pos: BlockPos, d: BlockDirection, q: BlockPos)
    requires
        palette_valid(m.palette),
        lget(m, pos) matches Some(s) && s.block == BlockKind::SculkVein,
    ensures
        sculk_at(m, neighbour(pos, d)) ==> !(lget(spec_on_discharged(m, pos), pos) matches Some(t)
            && spec_has_face(t, d)),
        spec_has_face(lget(m, pos).unwrap(), d) && !sculk_at(m, neighbour(pos, d)) ==> (lget(
            spec_on_discharged(m, pos),
            pos,
        ) matches Some(t) && t.block == BlockKind::SculkVein && spec_has_face(t, d)),
        lget(spec_on_discharged(m, pos), pos) matches Some(t) && spec_has_face(t, d) ==> spec_has_face(
            lget(m, pos).unwrap(),
            d,
        ),
        lget(spec_on_discharged(m, pos), pos) matches Some(t) && (t.block == BlockKind::SculkVein || t.block == (
        if lis_water(m, pos) {
            BlockKind::Water
        } else {
            BlockKind::Air
        })),
        q != pos ==> lget(spec_on_discharged(m, pos), q) == lget(m, q),
{
    let s = lget(m, pos).unwrap();
    lemma_discharge_faces_kept(m, pos, s, 6);
    lemma_dir_index(d);
    let st = discharge_faces(m, pos, s, 6);
    if spec_has_face(s, d) && !sculk_at(m, neighbour(pos, d)) {
        assert(spec_has_face(st, dir_at(dir_index(d))));
        assert(spec_has_any_face(st));
    }
    if q != pos {
        assert(crate::block_pos::block_key(q) != crate::block_pos::block_key(pos));
    }
}

/// Every sculk block of `m2` was already there in `m`.
pub open spec fn no_new_sculk(m: LevelModel, m2: LevelModel) -> bool {
    forall|q: BlockPos| #[trigger] sculk_at(m2, q) ==> lget(m2, q) == lget(m, q)
}

proof fn lemma_discharge_around_no_sculk(m: LevelModel, support_pos: BlockPos, skip: BlockDirection, n: int)
    requires
        palette_valid(m.palette),
    ensures
        no_new_sculk(m, discharge_around(m, support_pos, skip, n)),
        discharge_around(m, support_pos, skip, n).palette == m.palette,
    decreases n,
{
    if n > 0 {
        lemma_discharge_around_no_sculk(m, support_pos, skip, n - 1);
        let prev = discharge_around(m, support_pos, skip, n - 1);
        let d = dir_at(n - 1);
        let vein_pos = neighbour(support_pos, d);
        if d != skip && (lget(prev, vein_pos) matches Some(vs) && vs.block == BlockKind::SculkVein) {
            let next = spec_on_discharged(prev, vein_pos);
            assert forall|q: BlockPos| #[trigger] sculk_at(next, q) implies lget(next, q) == lget(m, q) by {
                lemma_discharge_drops_only_faces_on_sculk(prev, vein_pos, d, q);
                assert(sculk_at(prev, q));
            }
        }
    }
}

/// Placing from the supports `order[i..]`: every new sculk block is the
/// neighbour of `pos` across a face of the vein, and was replaceable;
/// when nothing is placed the level is unchanged.
proof fn lemma_place_from_supports(
    m: LevelModel,
    pos: BlockPos,
    state: BlockState,
    order: Seq<BlockDirection>,
    world_gen: bool,
    i: int,
    q: BlockPos,
)
    requires
        palette_valid(m.palette),
        block_pos_fits(pos, 4),
    ensures
        sculk_at(place_from(m, pos, state, order, world_gen, i).0, q) && !sculk_at(m, q) ==> exists|d: BlockDirection|
            spec_has_face(state, d) && q == #[trigger] neighbour(pos, d) && (lget(m, q) matches Some(o)
                && tag_replaceable(o, world_gen)),
        !place_from(m, pos, state, order, world_gen, i).1 ==> place_from(m, pos, state, order, world_gen, i).0
            == m,
    decreases order.len() - i,
{
    if i < 0 || i >= order.len() {
    } else {
        let support = order[i];
        let support_pos = neighbour(pos, support);
        if spec_has_face(state, support) && (lget(m, support_pos) matches Some(ss) && tag_replaceable(
            ss,
            world_gen,
        )) {
            let m1 = lset(m, support_pos, m.palette.sculk);
            lemma_neighbour_step(pos, support);
            lemma_spread_writes_only_nearby_veins(m1, support_pos, all_spread_types());
            let m2 = spec_spread_with_types(m1, support_pos, all_spread_types()).0;
            lemma_discharge_around_no_sculk(m2, support_pos, dir_opposite(support), 6);
            let m3 = discharge_around(m2, support_pos, dir_opposite(support), 6);
            if sculk_at(m3, q) && !sculk_at(m, q) {
                assert(sculk_at(m2, q));
                assert(lget(m2, q) == lget(m1, q));
                if q != support_pos {
                    assert(crate::block_pos::block_key(q) != crate::block_pos::block_key(support_pos));
                    assert(false);
                }
                assert(spec_has_face(state, support) && q == neighbour(pos, support));
            }
        } else {
            lemma_place_from_supports(m, pos, state, order, world_gen, i + 1, q);
        }
    }
}

/// Placing sculk for a vein turns a block into sculk only where the vein
/// rests: every new sculk block is the neighbour of `pos` across a face of
/// the vein at `pos`, and was replaceable (by the tag that `world_gen`
/// picks). When nothing is placed, nothing changes.
pub proof fn lemma_place_sculk_only_on_supports(
    m: LevelModel,
    pos: BlockPos,
    rolls: Seq<i32>,
    world_gen: bool,
    q: BlockPos,
)
    requires
        palette_valid(m.palette),
        block_pos_fits(pos, 4),
    ensures
        sculk_at(spec_attempt_place_sculk(m, pos, rolls, world_gen).0, q) && !sculk_at(m, q) ==> exists|
            d: BlockDirection,
        |
            (lget(m, pos) matches Some(s) && spec_has_face(s, d)) && q == #[trigger] neighbour(pos, d) && (lget(
                m,
                q,
            ) matches Some(o) && tag_replaceable(o, world_gen)),
        !spec_attempt_place_sculk(m, pos, rolls, world_gen).1 ==> spec_attempt_place_sculk(
            m,
            pos,
            rolls,
            world_gen,
        ).0 == m,
{
    if let Some(state) = lget(m, pos) {
        lemma_place_from_supports(m, pos, state, shuffled(rolls, 5), world_gen, 0, q);
    }
}

/// A vein face `d` can attach at `pos`: the side of the block behind it
/// that faces `pos` is sturdy.
pub open spec fn attaches(m: LevelModel, pos: BlockPos, d: BlockDirection) -> bool {
    lis_face_sturdy(m, neighbour(pos, d), dir_opposite(d))
}

/// The bit of direction `d` (by registry index) is set in `bits`.
pub open spec fn face_bit(bits: u8, d: BlockDirection) -> bool {
    bits & (1u8 << (dir_index(d) as u8)) != 0
}

proof fn lemma_regrow_state(m: LevelModel, pos: BlockPos, faces: Seq<BlockDirection>, n: int)
    requires
        palette_valid(m.palette),
        0 <= n <= faces.len(),
    ensures
        regrow_state(m, pos, faces, n).0.block == BlockKind::SculkVein,
        !regrow_state(m, pos, faces, n).0.waterlogged,
        forall|d: BlockDirection|
            #[trigger] face_in(regrow_state(m, pos, faces, n).0.faces, d) == (exists|j: int|
                0 <= j < n && faces[j] == d && attaches(m, pos, d)),
        regrow_state(m, pos, faces, n).1 == (exists|j: int| 0 <= j < n && #[trigger] attaches(m, pos, faces[j])),
    decreases n,
{
    if n > 0 {
        lemma_regrow_state(m, pos, faces, n - 1);
        let prev = regrow_state(m, pos, faces, n - 1);
        let e = faces[n - 1];
        assert forall|d: BlockDirection|
            #[trigger] face_in(regrow_state(m, pos, faces, n).0.faces, d) == (exists|j: int|
                0 <= j < n && faces[j] == d && attaches(m, pos, d)) by {
            lemma_face_set_get(prev.0.faces, e, true, d);
            if exists|j: int| 0 <= j < n && faces[j] == d && attaches(m, pos, d) {
                let j = choose|j: int| 0 <= j < n && faces[j] == d && attaches(m, pos, d);
                if j < n - 1 {
                    assert(exists|j2: int| 0 <= j2 < n - 1 && faces[j2] == d && attaches(m, pos, d));
                }
            }
            if exists|j: int| 0 <= j < n - 1 && faces[j] == d && attaches(m, pos, d) {
                let j = choose|j: int| 0 <= j < n - 1 && faces[j] == d && attaches(m, pos, d);
                assert(0 <= j < n && faces[j] == d && attaches(m, pos, d));
            }
            if d == e && attaches(m, pos, e) {
                assert(0 <= n - 1 < n && faces[n - 1] == d && attaches(m, pos, d));
            }
        }
        if exists|j: int| 0 <= j < n && #[trigger] attaches(m, pos, faces[j]) {
            let j = choose|j: int| 0 <= j < n && #[trigger] attaches(m, pos, faces[j]);
            if j < n - 1 {
                assert(exists|j2: int| 0 <= j2 < n - 1 && #[trigger] attaches(m, pos, faces[j2]));
            }
        }
        if exists|j: int| 0 <= j < n - 1 && #[trigger] attaches(m, pos, faces[j]) {
            let j = choose|j: int| 0 <= j < n - 1 && #[trigger] attaches(m, pos, faces[j]);
            assert(0 <= j < n && attaches(m, pos, faces[j]));
        }
        if attaches(m, pos, faces[n - 1]) {
            assert(0 <= n - 1 < n && attaches(m, pos, faces[n - 1]));
        }
    }
}

proof fn lemma_bit_faces(bits: u8, n: int)
    requires
        0 <= n <= 6,
    ensures
        forall|d: BlockDirection|
            #[trigger] bit_faces(bits, n).contains(d) == (dir_index(d) < n && face_bit(bits, d)),
    decreases n,
{
    if n > 0 {
        lemma_bit_faces(bits, n - 1);
        let e = dir_at(n - 1);
        lemma_dir_index(e);
        assert forall|d: BlockDirection|
            #[trigger] bit_faces(bits, n).contains(d) == (dir_index(d) < n && face_bit(bits, d)) by {
            lemma_dir_index(d);
            let prev = bit_faces(bits, n - 1);
            if bits & (1u8 << ((n - 1) as u8)) != 0 {
                assert(bit_faces(bits, n) == prev.push(e));
                assert(prev.push(e)[prev.len() as int] == e);
                if prev.push(e).contains(d) {
                    let j = choose|j: int| 0 <= j < prev.push(e).len() && prev.push(e)[j] == d;
                    if j < prev.len() {
                        assert(prev[j] == d);
                    }
                }
                if prev.contains(d) {
                    let j = choose|j: int| 0 <= j < prev.len() && prev[j] == d;
                    assert(prev.push(e)[j] == d);
                }
            }
        }
    }
}

/// A vein cursor with face bits set regrows a vein at `pos` where the
/// block is air or holds water: the new vein has exactly the faces whose
/// bit is set and that can attach, and holds water where the block held
/// water. Nothing is regrown, and nothing changes, when no such face can
/// attach or the block is neither air nor water; no other block changes.
pub proof fn lemma_cursor_regrow(
    m: LevelModel,
    pos: BlockPos,
    state: Option<BlockState>,
    bits: u8,
    d: BlockDirection,
    q: BlockPos,
)
    requires
        palette_valid(m.palette),
        bits != 0,
    ensures
        spec_attempt_spread_vein(m, pos, state, Some(bits)).1 == ((match state {
            Some(s) => Some(s),
            None => lget(m, pos),
        }) matches Some(e) && (e.is_air || (e.block == BlockKind::Water && lis_water(m, pos)) || (e.block
            == BlockKind::SculkVein && e.waterlogged)) && exists|d2: BlockDirection|
            face_bit(bits, d2) && #[trigger] attaches(m, pos, d2)),
        !spec_attempt_spread_vein(m, pos, state, Some(bits)).1 ==> spec_attempt_spread_vein(
            m,
            pos,
            state,
            Some(bits),
        ).0 == m,
        q != pos ==> lget(spec_attempt_spread_vein(m, pos, state, Some(bits)).0, q) == lget(m, q),
        spec_attempt_spread_vein(m, pos, state, Some(bits)).1 && in_level(m, pos) ==> (lget(
            spec_attempt_spread_vein(m, pos, state, Some(bits)).0,
            pos,
        ) matches Some(t) && t.block == BlockKind::SculkVein && spec_has_face(t, d) == (face_bit(bits, d)
            && attaches(m, pos, d)) && t.waterlogged == (lget(m, pos) matches Some(e) && ((e.block
            == BlockKind::Water && lis_water(m, pos)) || (e.block == BlockKind::SculkVein && e.waterlogged)))),
{
    let faces = bit_faces(bits, 6);
    lemma_bit_faces(bits, 6);
    lemma_regrow_state(m, pos, faces, faces.len() as int);
    lemma_dir_index(d);
    if exists|d2: BlockDirection| face_bit(bits, d2) && #[trigger] attaches(m, pos, d2) {
        let d2 = choose|d2: BlockDirection| face_bit(bits, d2) && #[trigger] attaches(m, pos, d2);
        lemma_dir_index(d2);
        assert(faces.contains(d2));
        let j = choose|j: int| 0 <= j < faces.len() && faces[j] == d2;
        assert(attaches(m, pos, faces[j]));
    }
    if exists|j: int| 0 <= j < faces.len() && #[trigger] attaches(m, pos, faces[j]) {
        let j = choose|j: int| 0 <= j < faces.len() && #[trigger] attaches(m, pos, faces[j]);
        let d2 = faces[j];
        lemma_dir_index(d2);
        assert(faces.contains(d2));
        assert(face_bit(bits, d2) && attaches(m, pos, d2));
    }
    if faces.contains(d) && attaches(m, pos, d) {
        let j = choose|j: int| 0 <= j < faces.len() && faces[j] == d;
        assert(0 <= j < faces.len() && faces[j] == d && attaches(m, pos, d));
    }
    if exists|j: int| 0 <= j < faces.len() && faces[j] == d && attaches(m, pos, d) {
        let j = choose|j: int| 0 <= j < faces.len() && faces[j] == d && attaches(m, pos, d);
        assert(faces.contains(d));
    }
    if q != pos {
        assert(crate::block_pos::block_key(q) != crate::block_pos::block_key(pos));
    }
}

/// The block at `q` may take a vein: it is there, it is not fire nor a
/// liquid other than water, and it is replaceable, air, a vein or a water
/// source.
pub open spec fn fit_for_vein(m: LevelModel, q: BlockPos) -> bool {
    lget(m, q) matches Some(o) && {
        &&& o.block != BlockKind::Fire
        &&& !(o.is_liquid && !(o.block == BlockKind::Water && lis_water(m, q)))
        &&& (o.replaceable || o.block == BlockKind::Air || o.block == BlockKind::SculkVein || (o.block
            == BlockKind::Water && lis_water_source(m, q)))
    }
}

/// Every block that `m2` changed from `m` could take a vein in `m`.
pub open spec fn changed_fit(m: LevelModel, m2: LevelModel) -> bool {
    forall|q: BlockPos| #[trigger] lget(m2, q) != lget(m, q) ==> fit_for_vein(m, q)
}

proof fn lemma_fit_step(m: LevelModel, mc: LevelModel, tp: BlockPos, st: BlockState)
    requires
        changed_fit(m, mc),
        mc.reads_fluids == m.reads_fluids,
        lget(mc, tp) == lget(m, tp) ==> fit_for_vein(mc, tp),
    ensures
        changed_fit(m, lset(mc, tp, st)),
{
    let mc2 = lset(mc, tp, st);
    assert forall|q: BlockPos| #[trigger] lget(mc2, q) != lget(m, q) implies fit_for_vein(m, q) by {
        if q != tp {
            assert(crate::block_pos::block_key(q) != crate::block_pos::block_key(tp));
            assert(lget(mc2, q) == lget(mc, q));
        } else if lget(mc, tp) == lget(m, tp) {
            assert(fit_for_vein(mc, tp));
        } else {
            assert(fit_for_vein(m, tp));
        }
    }
}

proof fn lemma_spread_in_direction_fit(
    m0: LevelModel,
    m: LevelModel,
    pos: BlockPos,
    dir: BlockDirection,
    from_face: BlockDirection,
    types: Seq<SpreadType>,
    t: int,
)
    requires
        changed_fit(m0, m),
        m.reads_fluids == m0.reads_fluids,
    ensures
        changed_fit(m0, spread_in_direction(m, pos, dir, from_face, types, t).0),
    decreases types.len() - t,
{
    if t < 0 || t >= types.len() {
    } else {
        let (tp, tf) = spec_spread_pos(types[t], pos, dir, from_face);
        let placed = spec_state_for_placement(m, tp, tf, lget(m, tp));
        if spec_can_spread_into(m, pos, tp, tf) && placed is Some {
            reveal(spec_can_spread_into);
            lemma_fit_step(m0, m, tp, placed.unwrap());
        } else {
            lemma_spread_in_direction_fit(m0, m, pos, dir, from_face, types, t + 1);
        }
    }
}

proof fn lemma_spread_face_fit(
    m0: LevelModel,
    m: LevelModel,
    pos: BlockPos,
    source: BlockState,
    from_face: BlockDirection,
    types: Seq<SpreadType>,
    n: int,
)
    requires
        changed_fit(m0, m),
        m.reads_fluids == m0.reads_fluids,
        palette_valid(m.palette),
        block_pos_fits(pos, 3),
    ensures
        changed_fit(m0, spread_face(m, pos, source, from_face, types, n).0),
    decreases n,
{
    if n > 0 {
        lemma_spread_face_fit(m0, m, pos, source, from_face, types, n - 1);
        lemma_spread_face_within(m, pos, source, from_face, types, n - 1);
        let prev = spread_face(m, pos, source, from_face, types, n - 1);
        let dir = dir_at(n - 1);
        if !(dir_axis(dir) == dir_axis(from_face) || (source.block == BlockKind::SculkVein && spec_has_face(
            source,
            dir,
        ))) {
            lemma_spread_in_direction_fit(m0, prev.0, pos, dir, from_face, types, 0);
        }
    }
}

proof fn lemma_spread_faces_fit(
    m0: LevelModel,
    m: LevelModel,
    pos: BlockPos,
    source: BlockState,
    types: Seq<SpreadType>,
    n: int,
)
    requires
        changed_fit(m0, m),
        m.reads_fluids == m0.reads_fluids,
        palette_valid(m.palette),
        block_pos_fits(pos, 3),
    ensures
        changed_fit(m0, spread_faces(m, pos, source, types, n).0),
    decreases n,
{
    if n > 0 {
        lemma_spread_faces_fit(m0, m, pos, source, types, n - 1);
        lemma_spread_faces_within(m, pos, source, types, n - 1);
        let prev = spread_faces(m, pos, source, types, n - 1);
        let face = dir_at(n - 1);
        if spec_can_spread_from_face(source, face) {
            lemma_spread_face_fit(m0, prev.0, pos, source, face, types, 6);
        }
    }
}

/// Spreading only places veins on blocks that can take one: every block
/// it changes was, before the spread, neither fire nor a liquid other than
/// water, and was replaceable, air, a vein or a water source.
pub proof fn lemma_spread_only_on_fit_blocks(m: LevelModel, pos: BlockPos, types: Seq<SpreadType>)
    requires
        palette_valid(m.palette),
        block_pos_fits(pos, 3),
    ensures
        changed_fit(m, spec_spread_with_types(m, pos, types).0),
{
    if let Some(source) = lget(m, pos) {
        lemma_spread_faces_fit(m, m, pos, source, types, 6);
    }
}

/// A vein has access to a substrate exactly when one of its faces rests
/// on a block tagged `sculk_replaceable`; nothing but a vein has.
pub proof fn lemma_substrate_access(m: LevelModel, s: BlockState, pos: BlockPos)
    ensures
        spec_has_substrate_access(m, s, pos) <==> (s.block == BlockKind::SculkVein && exists|d: BlockDirection|
            face_in(s.faces, d) && (lget(m, #[trigger] neighbour(pos, d)) matches Some(n) && n.sculk_replaceable)),
{
    if s.block == BlockKind::SculkVein && exists|d: BlockDirection|
        face_in(s.faces, d) && (lget(m, #[trigger] neighbour(pos, d)) matches Some(n) && n.sculk_replaceable) {
        let d = choose|d: BlockDirection|
            face_in(s.faces, d) && (lget(m, #[trigger] neighbour(pos, d)) matches Some(n) && n.sculk_replaceable);
        lemma_dir_index(d);
        assert(spec_has_face(s, dir_at(dir_index(d))));
    }
    if spec_has_substrate_access(m, s, pos) {
        let i = choose|i: int|
            0 <= i < 6 && #[trigger] spec_has_face(s, dir_at(i)) && (lget(m, neighbour(pos, dir_at(i))) matches Some(
                n,
            ) && n.sculk_replaceable);
        let d = dir_at(i);
        assert(face_in(s.faces, d) && (lget(m, neighbour(pos, d)) matches Some(n) && n.sculk_replaceable));
    }
}

proof fn lemma_shuffled_steps(rolls: Seq<i32>, n: int)
    requires
        valid_rolls(rolls),
        0 <= n <= 5,
    ensures
        shuffled(rolls, n).len() == 6,
        forall|d: BlockDirection| #[trigger] shuffled(rolls, n).contains(d),
        forall|i: int, j: int|
            0 <= i < j < 6 ==> #[trigger] shuffled(rolls, n)[i] != #[trigger] shuffled(rolls, n)[j],
    decreases n,
{
    if n == 0 {
        assert forall|d: BlockDirection| #[trigger] shuffled(rolls, 0).contains(d) by {
            lemma_dir_index(d);
            assert(shuffled(rolls, 0)[dir_index(d)] == d);
        }
        assert forall|i: int, j: int| 0 <= i < j < 6 implies #[trigger] shuffled(rolls, 0)[i] != #[trigger] shuffled(
            rolls,
            0,
        )[j] by {
            lemma_dir_index(shuffled(rolls, 0)[i]);
        }
    } else {
        lemma_shuffled_steps(rolls, n - 1);
        let s0 = shuffled(rolls, n - 1);
        let a = 6 - n;
        let b = rolls[n - 1] as int;
        let s1 = shuffled(rolls, n);
        assert(0 <= b <= a);
        assert forall|d: BlockDirection| #[trigger] s1.contains(d) by {
            assert(s0.contains(d));
            let k = choose|k: int| 0 <= k < 6 && s0[k] == d;
            if k == a {
                assert(s1[b] == d);
            } else if k == b {
                assert(s1[a] == d);
            } else {
                assert(s1[k] == d);
            }
        }
        assert forall|i: int, j: int| 0 <= i < j < 6 implies #[trigger] s1[i] != #[trigger] s1[j] by {
            let pi = if i == a { b } else if i == b { a } else { i };
            let pj = if j == a { b } else if j == b { a } else { j };
            assert(s1[i] == s0[pi]);
            assert(s1[j] == s0[pj]);
            if pi < pj {
                assert(s0[pi] != s0[pj]);
            } else {
                assert(s0[pj] != s0[pi]);
            }
        }
    }
}

/// The shuffled support order tries every direction exactly once.
pub proof fn lemma_shuffle_is_permutation(rolls: Seq<i32>)
    requires
        valid_rolls(rolls),
    ensures
        shuffled(rolls, 5).len() == 6,
        forall|d: BlockDirection| #[trigger] shuffled(rolls, 5).contains(d),
        forall|i: int, j: int| 0 <= i < j < 6 ==> #[trigger] shuffled(rolls, 5)[i] != #[trigger] shuffled(rolls, 5)[j],
{
    lemma_shuffled_steps(rolls, 5);
}

/// The vein state placed at `p` with face `f`: nothing when the face
/// cannot attach there or the vein there already has it; otherwise a vein
/// with face `f` and the other faces of the vein that was there (none
/// for any other block), holding water exactly when the block held a
/// water source or was a waterlogged vein.
pub proof fn lemma_placement_state(
    m: LevelModel,
    p: BlockPos,
    f: BlockDirection,
    old_state: Option<BlockState>,
    g: BlockDirection,
)
    requires
        palette_valid(m.palette),
    ensures
        spec_state_for_placement(m, p, f, old_state) is None <==> (!attaches(m, p, f) || (old_state matches Some(o)
            && o.block == BlockKind::SculkVein && face_in(o.faces, f))),
        spec_state_for_placement(m, p, f, old_state) matches Some(t) ==> {
            &&& t.block == BlockKind::SculkVein
            &&& face_in(t.faces, f)
            &&& g != f ==> face_in(t.faces, g) == (old_state matches Some(o) && o.block == BlockKind::SculkVein
                && face_in(o.faces, g))
            &&& t.waterlogged == (old_state matches Some(o) && ((o.block == BlockKind::Water && lis_water_source(
                m,
                p,
            )) || (o.block == BlockKind::SculkVein && o.waterlogged)))
        },
{
    reveal(spec_state_for_placement);
    let base0 = match old_state {
        Some(s) => if s.block == BlockKind::SculkVein { s } else { m.palette.vein },
        None => m.palette.vein,
    };
    lemma_face_set_get(base0.faces, f, true, f);
    lemma_face_set_get(base0.faces, f, true, g);
}

} // verus!
