//! The closing pass of a sculk patch: extra-rare shrieker growths around
//! its origin.

use vstd::prelude::*;
use crate::block_pos::{block_pos_fits, shifted, BlockDirection, BlockPos};
use crate::sculk::{
    in_level, lget, lis_air, lis_face_sturdy, lset, palette_valid, shrieker_state, BlockKind, BlockState,
    LevelModel, SculkLevel,
};

verus! {

broadcast use crate::block_pos::lemma_block_key_injective;

/// Placing a summoning shrieker at each of the first `n` candidates around
/// `pos` (candidate `i` is offset by `rolls[i] - (2, 2)` on x and z) that is
/// air and stands on a block whose top is sturdy.
pub open spec fn extra_growths(m: LevelModel, pos: BlockPos, rolls: Seq<(i32, i32)>, n: int) -> LevelModel
    decreases n,
{
    if n <= 0 {
        m
    } else {
        let prev = extra_growths(m, pos, rolls, n - 1);
        let c = shifted(pos, rolls[n - 1].0 - 2, 0, rolls[n - 1].1 - 2);
        if lis_air(prev, c) && lis_face_sturdy(prev, shifted(c, 0, -1, 0), BlockDirection::Up) {
            lset(prev, c, BlockState { can_summon: true, ..prev.palette.shrieker })
        } else {
            prev
        }
    }
}

/// Places the extra-rare growths (shriekers) around `pos`, one candidate per
/// pair of rolls of `next_bounded_i32(5)`; the number of pairs is the
/// number of growths drawn.
pub fn place_extra_rare_growths(level: &mut SculkLevel, pos: BlockPos, rolls: &Vec<(i32, i32)>)
    requires
        block_pos_fits(pos, 3),
        forall|i: int| 0 <= i < rolls.len() ==> 0 <= (#[trigger] rolls@[i]).0 < 5 && 0 <= rolls@[i].1 < 5,
    ensures
        final(level)@ == extra_growths(old(level)@, pos, rolls@, rolls.len() as int),
        final(level)@.palette == old(level)@.palette,
{
    let ghost m0 = level@;
    let mut i: usize = 0;
    while i < rolls.len()
        invariant
            block_pos_fits(pos, 3),
            forall|q: int| 0 <= q < rolls.len() ==> 0 <= (#[trigger] rolls@[q]).0 < 5 && 0 <= rolls@[q].1 < 5,
            i <= rolls.len(),
            level@ == extra_growths(m0, pos, rolls@, i as int),
            level@.palette == m0.palette,
        decreases rolls.len() - i,
    {
        let (rx, rz) = rolls[i];
        assert(0 <= rolls@[i as int].0 < 5 && 0 <= rolls@[i as int].1 < 5);
        let candidate = pos.offset(rx - 2, 0, rz - 2);
        if level.sculk_is_air(candidate) && level.sculk_is_face_sturdy(candidate.down(), BlockDirection::Up) {
            let palette = level.palette();
            level.sculk_set(candidate, shrieker_state(&palette, true));
        }
        i = i + 1;
    }
}

/// The candidate position for a pair of rolls.
pub open spec fn growth_candidate(pos: BlockPos, r: (i32, i32)) -> BlockPos {
    shifted(pos, r.0 - 2, 0, r.1 - 2)
}

/// A summoning shrieker stands at `q`.
pub open spec fn summoning_shrieker_at(m: LevelModel, q: BlockPos) -> bool {
    lget(m, q) matches Some(t) && t.block == BlockKind::SculkShrieker && t.can_summon
}

proof fn lemma_extra_growths_steps(m: LevelModel, pos: BlockPos, rolls: Seq<(i32, i32)>, n: int, q: BlockPos, i: int)
    requires
        palette_valid(m.palette),
        block_pos_fits(pos, 3),
        0 <= n <= rolls.len(),
        forall|k: int| 0 <= k < rolls.len() ==> 0 <= (#[trigger] rolls[k]).0 < 5 && 0 <= rolls[k].1 < 5,
    ensures
        extra_growths(m, pos, rolls, n).palette == m.palette,
        extra_growths(m, pos, rolls, n).reads_fluids == m.reads_fluids,
        extra_growths(m, pos, rolls, n).view == m.view,
        lget(extra_growths(m, pos, rolls, n), q) != lget(m, q) ==> lis_air(m, q) && summoning_shrieker_at(
            extra_growths(m, pos, rolls, n),
            q,
        ) && q.y == pos.y,
        0 <= i < n && in_level(m, growth_candidate(pos, rolls[i])) && lis_air(m, growth_candidate(pos, rolls[i]))
            && lis_face_sturdy(m, shifted(growth_candidate(pos, rolls[i]), 0, -1, 0), BlockDirection::Up)
            ==> summoning_shrieker_at(extra_growths(m, pos, rolls, n), growth_candidate(pos, rolls[i])),
    decreases n,
{
    if n > 0 {
        let prev = extra_growths(m, pos, rolls, n - 1);
        let c = shifted(pos, rolls[n - 1].0 - 2, 0, rolls[n - 1].1 - 2);
        let below = shifted(c, 0, -1, 0);
        assert(0 <= rolls[n - 1].0 < 5 && 0 <= rolls[n - 1].1 < 5);
        lemma_extra_growths_steps(m, pos, rolls, n - 1, q, i);
        lemma_extra_growths_steps(m, pos, rolls, n - 1, c, i);
        lemma_extra_growths_steps(m, pos, rolls, n - 1, below, i);
        if 0 <= i < n - 1 {
            lemma_extra_growths_steps(m, pos, rolls, n - 1, growth_candidate(pos, rolls[i]), i);
        }
        if q != c {
            assert(crate::block_pos::block_key(q) != crate::block_pos::block_key(c));
        }
        if 0 <= i < n && growth_candidate(pos, rolls[i]) != c {
            assert(crate::block_pos::block_key(growth_candidate(pos, rolls[i])) != crate::block_pos::block_key(c));
        }
        assert(below.y != pos.y);
    }
}

/// The extra growths only put summoning shriekers, and only on air at the
/// level of `pos`; every candidate that is air (in the chunk) on a block
/// with a sturdy top gets one, and every changed block is a candidate.
pub proof fn lemma_extra_growths_law(m: LevelModel, pos: BlockPos, rolls: Seq<(i32, i32)>, q: BlockPos, i: int)
    requires
        palette_valid(m.palette),
        block_pos_fits(pos, 3),
        forall|k: int| 0 <= k < rolls.len() ==> 0 <= (#[trigger] rolls[k]).0 < 5 && 0 <= rolls[k].1 < 5,
    ensures
        lget(extra_growths(m, pos, rolls, rolls.len() as int), q) != lget(m, q) ==> lis_air(m, q)
            && summoning_shrieker_at(extra_growths(m, pos, rolls, rolls.len() as int), q) && exists|j: int|
            0 <= j < rolls.len() && q == #[trigger] growth_candidate(pos, rolls[j]),
        0 <= i < rolls.len() && in_level(m, growth_candidate(pos, rolls[i])) && lis_air(
            m,
            growth_candidate(pos, rolls[i]),
        ) && lis_face_sturdy(m, shifted(growth_candidate(pos, rolls[i]), 0, -1, 0), BlockDirection::Up)
            ==> summoning_shrieker_at(extra_growths(m, pos, rolls, rolls.len() as int), growth_candidate(pos, rolls[i])),
{
    lemma_extra_growths_steps(m, pos, rolls, rolls.len() as int, q, i);
    lemma_changed_is_candidate(m, pos, rolls, rolls.len() as int, q);
}

proof fn lemma_changed_is_candidate(m: LevelModel, pos: BlockPos, rolls: Seq<(i32, i32)>, n: int, q: BlockPos)
    requires
        0 <= n <= rolls.len(),
    ensures
        lget(extra_growths(m, pos, rolls, n), q) != lget(m, q) ==> exists|j: int|
            0 <= j < n && q == #[trigger] growth_candidate(pos, rolls[j]),
    decreases n,
{
    if n > 0 {
        lemma_changed_is_candidate(m, pos, rolls, n - 1, q);
        let c = growth_candidate(pos, rolls[n - 1]);
        if q != c {
            assert(crate::block_pos::block_key(q) != crate::block_pos::block_key(c));
            if lget(extra_growths(m, pos, rolls, n), q) != lget(m, q) {
                let j = choose|j: int| 0 <= j < n - 1 && q == #[trigger] growth_candidate(pos, rolls[j]);
                assert(0 <= j < n && q == growth_candidate(pos, rolls[j]));
            }
        } else {
            assert(q == growth_candidate(pos, rolls[n - 1]));
        }
    }
}

} // verus!
