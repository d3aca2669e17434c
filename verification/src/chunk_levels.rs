//! The levels that chunk tickets ask for, and the facts about them that
//! the chunk loading operations rely on.
//!
//! A ticket at a chunk position with a level `l` asks every chunk within
//! Chebyshev distance `d` of it to be held at level `l + d`, as long as that
//! stays below `MAX_LEVEL` (where chunks are unloaded). The level of a chunk
//! is the lowest level any ticket asks of it.

use vstd::prelude::*;
use crate::chunk_loading::MAX_LEVEL;
use crate::chunk_pos::{dist, group_pos_key, key_pos, pos_key, ChunkPos};
use crate::chunk_view_lut::ring_index;

verus! {

broadcast use group_pos_key;

/// The stage of `level` in a table.
pub open spec fn stage(table: Seq<u8>, level: int) -> u8 {
    table[level + 128]
}

/// The level that a key holds in a level map; absent keys are unloaded.
pub open spec fn level_at_key(m: Map<u64, i8>, k: u64) -> int {
    if m.contains_key(k) { m[k] as int } else { MAX_LEVEL as int }
}

/// The level of a position in a level map.
pub open spec fn level_in(m: Map<u64, i8>, p: ChunkPos) -> int {
    level_at_key(m, pos_key(p))
}

/// The ticket levels held at a position.
pub open spec fn ticket_levels(tk: Map<u64, Vec<i8>>, p: ChunkPos) -> Seq<i8> {
    if tk.contains_key(pos_key(p)) { tk[pos_key(p)]@ } else { Seq::empty() }
}

/// The level that a ticket of level `l` at `t` asks of position `p`.
pub open spec fn contribution(t: ChunkPos, l: int, p: ChunkPos) -> int {
    if l + dist(p, t) < MAX_LEVEL { l + dist(p, t) } else { MAX_LEVEL as int }
}

/// The `i`-th ticket at `t` asks exactly `v` of `p`.
pub open spec fn ticket_source(tk: Map<u64, Vec<i8>>, t: ChunkPos, i: int, p: ChunkPos, v: int) -> bool {
    &&& 0 <= i < ticket_levels(tk, t).len()
    &&& contribution(t, ticket_levels(tk, t)[i] as int, p) == v
}

/// Positions at which the rings of a ticket of level `level` stay within
/// the `i32` coordinate range.
pub open spec fn pos_fits(pos: ChunkPos, level: int) -> bool {
    let range = MAX_LEVEL - 1 - level;
    &&& i32::MIN + range <= pos.x <= i32::MAX - range
    &&& i32::MIN + range <= pos.y <= i32::MAX - range
}

/// Every ticket is a non-empty list of levels below `MAX_LEVEL`, each at a
/// position whose rings stay within the coordinate range.
pub open spec fn tickets_valid(tk: Map<u64, Vec<i8>>) -> bool {
    forall|k: u64|
        #[trigger] tk.contains_key(k) ==> tk[k]@.len() > 0 && forall|i: int|
            0 <= i < tk[k]@.len() ==> 0 <= #[trigger] tk[k]@[i] < MAX_LEVEL && pos_fits(
                key_pos(k),
                tk[k]@[i] as int,
            )
}

/// The level map holds, at every position, the lowest level that any ticket
/// asks of it, and no entry for the positions that no ticket reaches.
pub open spec fn levels_from_tickets(tk: Map<u64, Vec<i8>>, m: Map<u64, i8>) -> bool {
    &&& forall|p: ChunkPos, t: ChunkPos, i: int|
        0 <= i < ticket_levels(tk, t).len() ==> level_in(m, p) <= #[trigger] contribution(
            t,
            ticket_levels(tk, t)[i] as int,
            p,
        )
    &&& forall|p: ChunkPos|
        #[trigger] level_in(m, p) < MAX_LEVEL ==> exists|t: ChunkPos, i: int|
            #[trigger] ticket_source(tk, t, i, p, level_in(m, p))
    &&& forall|k: u64| #[trigger] m.contains_key(k) ==> 0 <= m[k] < MAX_LEVEL
}

/// The stage change pending at a key, if any.
pub open spec fn pending(c: Map<u64, (u8, u8)>, k: u64) -> Option<(u8, u8)> {
    if c.contains_key(k) { Some(c[k]) } else { None }
}

/// A pending `(from, to)` stage change after a chunk moves from stage `os` to
/// stage `ns`: a move back to `from` cancels it, any other move updates `to`.
pub open spec fn recorded(e: Option<(u8, u8)>, os: u8, ns: u8) -> Option<(u8, u8)> {
    if os == ns {
        e
    } else {
        match e {
            Some(pair) => if pair.0 == ns { None } else { Some((pair.0, ns)) },
            None => Some((os, ns)),
        }
    }
}

/// Every pending change ends at the stage of the chunk's current level and
/// starts at another stage.
pub open spec fn changes_track_levels(c: Map<u64, (u8, u8)>, m: Map<u64, i8>, table: Seq<u8>) -> bool {
    forall|k: u64|
        #[trigger] c.contains_key(k) ==> c[k].1 == stage(table, level_at_key(m, k)) && c[k].0 != c[k].1
}


pub open spec fn min_int(a: int, b: int) -> int {
    if a <= b { a } else { b }
}

/// The change map after setting the entry of `k` to `e`.
pub open spec fn with_pending(c: Map<u64, (u8, u8)>, k: u64, e: Option<(u8, u8)>) -> Map<u64, (u8, u8)> {
    match e {
        Some(v) => c.insert(k, v),
        None => c.remove(k),
    }
}

/// A pending change that ends at the stage of the old level still does so
/// after it is recorded, with the stage of the new level.
pub proof fn lemma_recorded_tracks(e: Option<(u8, u8)>, os: u8, ns: u8)
    requires
        e matches Some(pair) ==> pair.1 == os && pair.0 != pair.1,
    ensures
        recorded(e, os, ns) matches Some(pair) ==> pair.1 == ns && pair.0 != pair.1,
{
}

/// A ticket of level `level` at `pos` asks nothing lower of any position
/// than what the levels already hold, once the level at `pos` is at most
/// `level`.
pub proof fn lemma_dominated(tk: Map<u64, Vec<i8>>, m: Map<u64, i8>, pos: ChunkPos, level: int, p: ChunkPos)
    requires
        levels_from_tickets(tk, m),
        tickets_valid(tk),
        level_in(m, pos) <= level,
        0 <= level < MAX_LEVEL,
    ensures
        level_in(m, p) <= contribution(pos, level, p),
{
    let v = level_in(m, pos);
    assert(v < MAX_LEVEL);
    let (t, i) = choose|t: ChunkPos, i: int| #[trigger] ticket_source(tk, t, i, pos, v);
    let l = ticket_levels(tk, t)[i] as int;
    assert(level_in(m, p) <= contribution(t, l, p));
}


/// Adding a ticket of level `level` at `pos` lowers every level to what the
/// new ticket asks, where it asks less, and keeps the levels derived from the
/// tickets.
pub proof fn lemma_add_ticket_levels(
    tk: Map<u64, Vec<i8>>,
    m: Map<u64, i8>,
    tk2: Map<u64, Vec<i8>>,
    m2: Map<u64, i8>,
    pos: ChunkPos,
    level: int,
)
    requires
        levels_from_tickets(tk, m),
        0 <= level < MAX_LEVEL,
        forall|p: ChunkPos|
            #[trigger] ticket_levels(tk2, p) == if p == pos {
                ticket_levels(tk, p).push(level as i8)
            } else {
                ticket_levels(tk, p)
            },
        forall|p: ChunkPos|
            #[trigger] level_in(m2, p) == min_int(level_in(m, p), contribution(pos, level, p)),
        forall|k: u64| #[trigger] m2.contains_key(k) ==> 0 <= m2[k] < MAX_LEVEL,
    ensures
        levels_from_tickets(tk2, m2),
{
    assert forall|p: ChunkPos, t: ChunkPos, i: int|
        0 <= i < ticket_levels(tk2, t).len() implies level_in(m2, p) <= #[trigger] contribution(
            t,
            ticket_levels(tk2, t)[i] as int,
            p,
        ) by {
        assert(level_in(m2, p) == min_int(level_in(m, p), contribution(pos, level, p)));
        if t == pos && i == ticket_levels(tk, t).len() {
        } else {
            assert(ticket_levels(tk2, t)[i] == ticket_levels(tk, t)[i]);
            assert(level_in(m, p) <= contribution(t, ticket_levels(tk, t)[i] as int, p));
        }
    }
    assert forall|p: ChunkPos| #[trigger] level_in(m2, p) < MAX_LEVEL implies exists|t: ChunkPos, i: int|
        #[trigger] ticket_source(tk2, t, i, p, level_in(m2, p)) by {
        assert(ticket_levels(tk2, pos) == ticket_levels(tk, pos).push(level as i8));
        if level_in(m2, p) == contribution(pos, level, p) {
            assert(ticket_source(tk2, pos, ticket_levels(tk, pos).len() as int, p, level_in(m2, p)));
        } else {
            assert(level_in(m2, p) == level_in(m, p));
            let (t, i) = choose|t: ChunkPos, i: int| #[trigger] ticket_source(tk, t, i, p, level_in(m, p));
            assert(ticket_levels(tk2, t)[i] == ticket_levels(tk, t)[i]);
            assert(ticket_source(tk2, t, i, p, level_in(m2, p)));
        }
    }
}


/// The level a key holds partway through spreading a ticket of level
/// `level` at `pos`: the keys of the rings below `r`, and the first `j`
/// keys of ring `r`, already hold the lower of their old level and the
/// ticket's.
pub open spec fn spread_level(m0: Map<u64, i8>, pos: ChunkPos, level: int, r: int, j: int, k: u64) -> int {
    let p = key_pos(k);
    let d = dist(p, pos);
    if d < r || (d == r && ring_index(r, p.x - pos.x, p.y - pos.y) < j) {
        min_int(level_at_key(m0, k), level + d)
    } else {
        level_at_key(m0, k)
    }
}

/// `v` is the lowest level that the tickets ask of `p` (`MAX_LEVEL` when
/// none reaches it).
#[verifier::opaque]
pub open spec fn exact_level(tk: Map<u64, Vec<i8>>, p: ChunkPos, v: int) -> bool {
    &&& 0 <= v <= MAX_LEVEL
    &&& forall|t: ChunkPos, i: int|
        0 <= i < ticket_levels(tk, t).len() ==> v <= #[trigger] contribution(
            t,
            ticket_levels(tk, t)[i] as int,
            p,
        )
    &&& v < MAX_LEVEL ==> exists|t: ChunkPos, i: int| #[trigger] ticket_source(tk, t, i, p, v)
}

pub proof fn lemma_exact_levels(tk: Map<u64, Vec<i8>>, m: Map<u64, i8>)
    requires
        forall|p: ChunkPos| #[trigger] exact_level(tk, p, level_in(m, p)),
        forall|k: u64| #[trigger] m.contains_key(k) ==> 0 <= m[k] < MAX_LEVEL,
    ensures
        levels_from_tickets(tk, m),
{
    reveal(exact_level);
    assert forall|p: ChunkPos, t: ChunkPos, i: int|
        0 <= i < ticket_levels(tk, t).len() implies level_in(m, p) <= #[trigger] contribution(
            t,
            ticket_levels(tk, t)[i] as int,
            p,
        ) by {
        assert(exact_level(tk, p, level_in(m, p)));
    }
    assert forall|p: ChunkPos| #[trigger] level_in(m, p) < MAX_LEVEL implies exists|t: ChunkPos, i: int|
        #[trigger] ticket_source(tk, t, i, p, level_in(m, p)) by {
        assert(exact_level(tk, p, level_in(m, p)));
    }
}

/// The tickets `tk1` are `tk0` without the `idx`-th level at `pos`.
pub open spec fn removed_at(tk0: Map<u64, Vec<i8>>, tk1: Map<u64, Vec<i8>>, pos: ChunkPos, idx: int) -> bool {
    &&& 0 <= idx < ticket_levels(tk0, pos).len()
    &&& ticket_levels(tk1, pos) == ticket_levels(tk0, pos).remove(idx)
    &&& forall|t: ChunkPos| t != pos ==> #[trigger] ticket_levels(tk1, t) == ticket_levels(tk0, t)
}

/// After a ticket level is removed, a position keeps its level when some
/// other ticket level than the removed one asks exactly that level of it.
pub proof fn lemma_removed_keeps(
    tk0: Map<u64, Vec<i8>>,
    tk1: Map<u64, Vec<i8>>,
    m0: Map<u64, i8>,
    pos: ChunkPos,
    idx: int,
    p: ChunkPos,
    t: ChunkPos,
    i: int,
)
    requires
        levels_from_tickets(tk0, m0),
        removed_at(tk0, tk1, pos, idx),
        level_in(m0, p) == MAX_LEVEL || ticket_source(tk0, t, i, p, level_in(m0, p)),
        level_in(m0, p) < MAX_LEVEL ==> !(t == pos && i == idx),
    ensures
        exact_level(tk1, p, level_in(m0, p)),
{
    reveal(exact_level);
    let v = level_in(m0, p);
    let s0 = ticket_levels(tk0, pos);
    assert(s0.remove(idx).len() == s0.len() - 1);
    assert forall|t2: ChunkPos, i2: int|
        0 <= i2 < ticket_levels(tk1, t2).len() implies v <= #[trigger] contribution(
            t2,
            ticket_levels(tk1, t2)[i2] as int,
            p,
        ) by {
        if t2 == pos {
            s0.remove_ensures(idx);
            if i2 < idx {
                assert(ticket_levels(tk1, t2)[i2] == s0[i2]);
                assert(v <= contribution(t2, s0[i2] as int, p));
            } else {
                assert(ticket_levels(tk1, t2)[i2] == s0[i2 + 1]);
                assert(v <= contribution(t2, s0[i2 + 1] as int, p));
            }
        } else {
            assert(ticket_levels(tk1, t2) == ticket_levels(tk0, t2));
            assert(v <= contribution(t2, ticket_levels(tk0, t2)[i2] as int, p));
        }
    }
    if v < MAX_LEVEL {
        assert(ticket_source(tk0, t, i, p, v));
        if t == pos {
            s0.remove_ensures(idx);
            if i < idx {
                assert(ticket_levels(tk1, t)[i] == s0[i]);
                assert(ticket_source(tk1, t, i, p, v));
            } else {
                assert(ticket_levels(tk1, t)[i - 1] == s0[i]);
                assert(ticket_source(tk1, t, i - 1, p, v));
            }
        } else {
            assert(ticket_levels(tk1, t) == ticket_levels(tk0, t));
            assert(ticket_source(tk1, t, i, p, v));
        }
    }
}


/// `m` is the lowest of the ticket levels held at `t`.
pub open spec fn is_lowest_ticket(tk: Map<u64, Vec<i8>>, t: ChunkPos, m: i8) -> bool {
    &&& exists|i: int| 0 <= i < ticket_levels(tk, t).len() && #[trigger] ticket_levels(tk, t)[i] == m
    &&& forall|i: int| 0 <= i < ticket_levels(tk, t).len() ==> m <= #[trigger] ticket_levels(tk, t)[i]
}

/// Each listed ticket is a real one with its lowest level, and every ticket
/// level that may ask a level below `MAX_LEVEL` of a position within `range`
/// of `pos` belongs to a listed ticket.
pub open spec fn lists_nearby(tk: Map<u64, Vec<i8>>, nearby: Seq<(ChunkPos, i8)>, pos: ChunkPos, range: int) -> bool {
    &&& forall|j: int| 0 <= j < nearby.len() ==> is_lowest_ticket(tk, (#[trigger] nearby[j]).0, nearby[j].1)
    &&& forall|t: ChunkPos, i: int|
        0 <= i < ticket_levels(tk, t).len() && #[trigger] ticket_levels(tk, t)[i] + dist(t, pos) < MAX_LEVEL
            + range ==> exists|j: int| 0 <= j < nearby.len() && (#[trigger] nearby[j]).0 == t
}

/// For a position within `range` of `pos`, the lowest level that the
/// listed tickets ask is the lowest level that all tickets ask.
pub proof fn lemma_nearby_exact(
    tk: Map<u64, Vec<i8>>,
    nearby: Seq<(ChunkPos, i8)>,
    pos: ChunkPos,
    range: int,
    p: ChunkPos,
    best: int,
)
    requires
        tickets_valid(tk),
        lists_nearby(tk, nearby, pos, range),
        dist(p, pos) <= range,
        0 <= best <= MAX_LEVEL,
        forall|j: int|
            0 <= j < nearby.len() ==> best <= #[trigger] contribution(nearby[j].0, nearby[j].1 as int, p),
        best < MAX_LEVEL ==> exists|j: int|
            0 <= j < nearby.len() && best == #[trigger] contribution(nearby[j].0, nearby[j].1 as int, p),
    ensures
        exact_level(tk, p, best),
{
    reveal(exact_level);
    assert forall|t: ChunkPos, i: int|
        0 <= i < ticket_levels(tk, t).len() implies best <= #[trigger] contribution(
            t,
            ticket_levels(tk, t)[i] as int,
            p,
        ) by {
        let l = ticket_levels(tk, t)[i];
        if contribution(t, l as int, p) < MAX_LEVEL {
            assert(l + dist(t, pos) < MAX_LEVEL + range);
            let j = choose|j: int| 0 <= j < nearby.len() && (#[trigger] nearby[j]).0 == t;
            assert(is_lowest_ticket(tk, nearby[j].0, nearby[j].1));
            assert(nearby[j].1 <= l);
            assert(best <= contribution(nearby[j].0, nearby[j].1 as int, p));
        }
    }
    if best < MAX_LEVEL {
        let j = choose|j: int|
            0 <= j < nearby.len() && best == #[trigger] contribution(nearby[j].0, nearby[j].1 as int, p);
        assert(is_lowest_ticket(tk, nearby[j].0, nearby[j].1));
        let i = choose|i: int|
            0 <= i < ticket_levels(tk, nearby[j].0).len() && #[trigger] ticket_levels(tk, nearby[j].0)[i]
                == nearby[j].1;
        assert(ticket_source(tk, nearby[j].0, i, p, best));
    }
}

/// When the removed ticket level asked nothing that no other ticket asks,
/// every position keeps its level.
pub proof fn lemma_remove_keeps_all(
    tk0: Map<u64, Vec<i8>>,
    tk1: Map<u64, Vec<i8>>,
    m0: Map<u64, i8>,
    pos: ChunkPos,
    idx: int,
    level: int,
)
    requires
        levels_from_tickets(tk0, m0),
        tickets_valid(tk0),
        removed_at(tk0, tk1, pos, idx),
        ticket_levels(tk0, pos)[idx] == level,
        0 <= level < MAX_LEVEL,
        level_in(m0, pos) != level || ticket_levels(tk1, pos).contains(level as i8),
    ensures
        forall|p: ChunkPos| #[trigger] exact_level(tk1, p, level_in(m0, p)),
{
    let s0 = ticket_levels(tk0, pos);
    assert forall|p: ChunkPos| #[trigger] exact_level(tk1, p, level_in(m0, p)) by {
        let v = level_in(m0, p);
        if v == MAX_LEVEL {
            lemma_removed_keeps(tk0, tk1, m0, pos, idx, p, pos, idx);
        } else {
            let (t, i) = choose|t: ChunkPos, i: int| #[trigger] ticket_source(tk0, t, i, p, v);
            if t == pos && i == idx {
                if level_in(m0, pos) != level {
                    assert(level_in(m0, pos) <= contribution(pos, s0[idx] as int, pos));
                    lemma_dominated(tk0, m0, pos, level_in(m0, pos), p);
                    assert(false);
                } else {
                    let s1 = ticket_levels(tk1, pos);
                    let j = choose|j: int| 0 <= j < s1.len() && s1[j] == level as i8;
                    s0.remove_ensures(idx);
                    let j2 = if j < idx { j } else { j + 1 };
                    assert(s0[j2] == level as i8);
                    assert(ticket_source(tk0, pos, j2, p, v));
                    lemma_removed_keeps(tk0, tk1, m0, pos, idx, p, pos, j2);
                }
            } else {
                lemma_removed_keeps(tk0, tk1, m0, pos, idx, p, t, i);
            }
        }
    }
}

/// A key that the removal of a ticket of level `level` at `pos` has already
/// visited: its ring lies below `r`, or it is among the first `j` of ring `r`.
pub open spec fn ring_visited(pos: ChunkPos, r: int, j: int, k: u64) -> bool {
    let p = key_pos(k);
    let d = dist(p, pos);
    d < r || (d == r && ring_index(r, p.x - pos.x, p.y - pos.y) < j)
}

/// The level a key holds partway through removing a ticket of level `level`
/// at `pos`: the visited keys that held exactly what the removed level asked
/// hold the lowest level the remaining tickets ask, every other key is as it was.
pub open spec fn removal_step(
    tk1: Map<u64, Vec<i8>>,
    m0: Map<u64, i8>,
    m: Map<u64, i8>,
    pos: ChunkPos,
    level: int,
    r: int,
    j: int,
    k: u64,
) -> bool {
    if ring_visited(pos, r, j, k) && level_at_key(m0, k) == level + dist(key_pos(k), pos) {
        exact_level(tk1, key_pos(k), level_at_key(m, k))
    } else {
        level_at_key(m, k) == level_at_key(m0, k)
    }
}


/// Two ticket maps hold the same levels at a position when every level held
/// by one is held by the other.
pub open spec fn same_ticket_levels(tk: Map<u64, Vec<i8>>, tk2: Map<u64, Vec<i8>>) -> bool {
    forall|t: ChunkPos, l: i8| #[trigger] ticket_levels(tk, t).contains(l) <==> #[trigger] ticket_levels(tk2, t).contains(l)
}

/// The levels depend on nothing but which ticket levels each position holds:
/// not on the order in which tickets came, nor on how often a level is held.
pub proof fn lemma_levels_unique(tk: Map<u64, Vec<i8>>, m: Map<u64, i8>, tk2: Map<u64, Vec<i8>>, m2: Map<u64, i8>)
    requires
        levels_from_tickets(tk, m),
        levels_from_tickets(tk2, m2),
        same_ticket_levels(tk, tk2),
    ensures
        m == m2,
{
    assert forall|p: ChunkPos| #[trigger] level_in(m, p) == level_in(m2, p) by {
        lemma_level_below(tk, m, tk2, m2, p);
        lemma_level_below(tk2, m2, tk, m, p);
    }
    assert forall|k: u64| #[trigger] m.contains_key(k) <==> m2.contains_key(k) by {
        assert(level_in(m, key_pos(k)) == level_in(m2, key_pos(k)));
    }
    assert forall|k: u64| #[trigger] m.contains_key(k) implies m[k] == m2[k] by {
        assert(level_in(m, key_pos(k)) == level_in(m2, key_pos(k)));
    }
    assert(m =~= m2);
}

proof fn lemma_level_below(tk: Map<u64, Vec<i8>>, m: Map<u64, i8>, tk2: Map<u64, Vec<i8>>, m2: Map<u64, i8>, p: ChunkPos)
    requires
        levels_from_tickets(tk, m),
        levels_from_tickets(tk2, m2),
        same_ticket_levels(tk, tk2),
    ensures
        level_in(m2, p) <= level_in(m, p),
{
    let v = level_in(m, p);
    if v < MAX_LEVEL {
        let (t, i) = choose|t: ChunkPos, i: int| #[trigger] ticket_source(tk, t, i, p, v);
        let l = ticket_levels(tk, t)[i];
        assert(ticket_levels(tk, t).contains(l));
        assert(ticket_levels(tk2, t).contains(l));
        let i2 = choose|i2: int| 0 <= i2 < ticket_levels(tk2, t).len() && ticket_levels(tk2, t)[i2] == l;
        assert(level_in(m2, p) <= contribution(t, ticket_levels(tk2, t)[i2] as int, p));
    } else {
        if m2.contains_key(pos_key(p)) {
            assert(m2[pos_key(p)] < MAX_LEVEL);
        }
    }
}

/// Removing a ticket right after adding it gives back the levels and the
/// pending stage changes from before the add.
pub proof fn lemma_remove_undoes_add(
    tk0: Map<u64, Vec<i8>>,
    m0: Map<u64, i8>,
    c0: Map<u64, (u8, u8)>,
    tk1: Map<u64, Vec<i8>>,
    m1: Map<u64, i8>,
    c1: Map<u64, (u8, u8)>,
    tk2: Map<u64, Vec<i8>>,
    m2: Map<u64, i8>,
    c2: Map<u64, (u8, u8)>,
    table: Seq<u8>,
    pos: ChunkPos,
    level: i8,
)
    requires
        levels_from_tickets(tk0, m0),
        changes_track_levels(c0, m0, table),
        forall|p: ChunkPos|
            #[trigger] ticket_levels(tk1, p) == if p == pos {
                ticket_levels(tk0, p).push(level)
            } else {
                ticket_levels(tk0, p)
            },
        levels_from_tickets(tk1, m1),
        forall|k: u64|
            #[trigger] pending(c1, k) == recorded(
                pending(c0, k),
                stage(table, level_at_key(m0, k)),
                stage(table, level_at_key(m1, k)),
            ),
        forall|p: ChunkPos|
            #[trigger] ticket_levels(tk2, p) == if p == pos {
                ticket_levels(tk1, p).remove_value(level)
            } else {
                ticket_levels(tk1, p)
            },
        levels_from_tickets(tk2, m2),
        forall|k: u64|
            #[trigger] pending(c2, k) == recorded(
                pending(c1, k),
                stage(table, level_at_key(m1, k)),
                stage(table, level_at_key(m2, k)),
            ),
    ensures
        m2 == m0,
        c2 == c0,
{
    assert forall|t: ChunkPos, l: i8| #[trigger] ticket_levels(tk0, t).contains(l) <==> #[trigger] ticket_levels(tk2, t).contains(l) by {
        if t == pos {
            let s = ticket_levels(tk0, pos);
            let s1 = s.push(level);
            assert(ticket_levels(tk1, pos) == s1);
            assert(s1[s.len() as int] == level);
            assert(s1.contains(level));
            s1.index_of_first_ensures(level);
            let i = s1.index_of_first(level).unwrap();
            s1.remove_ensures(i);
            let s2 = s1.remove(i);
            assert(ticket_levels(tk2, pos) == s2);
            if s.contains(l) {
                let j = choose|j: int| 0 <= j < s.len() && s[j] == l;
                if j < i {
                    assert(s2[j] == l);
                } else if j > i {
                    assert(s2[j - 1] == l);
                } else {
                    assert(s2[s2.len() - 1] == level);
                }
            }
            if s2.contains(l) {
                let j = choose|j: int| 0 <= j < s2.len() && s2[j] == l;
                if j < i {
                    assert(s[j] == l);
                } else {
                    if j + 1 < s.len() + 1 - 1 {
                        assert(s[j + 1] == l);
                    } else {
                        assert(s1[i] == level);
                        assert(s[i] == l);
                    }
                }
            }
        }
    }
    lemma_levels_unique(tk0, m0, tk2, m2);
    assert forall|k: u64| #[trigger] c2.contains_key(k) <==> c0.contains_key(k) by {
        assert(pending(c2, k) == pending(c0, k));
    }
    assert forall|k: u64| #[trigger] c2.contains_key(k) implies c2[k] == c0[k] by {
        assert(pending(c2, k) == pending(c0, k));
    }
    assert(c2 =~= c0);
}


/// Taking in the whole ticket `vec` at `t` (whose lowest level is `lowest`)
/// lowers every level to what that lowest level asks.
pub proof fn lemma_take_in_ticket(
    done: Map<u64, Vec<i8>>,
    temp: Map<u64, i8>,
    temp2: Map<u64, i8>,
    t: ChunkPos,
    vec: Vec<i8>,
    lowest: i8,
)
    requires
        levels_from_tickets(done, temp),
        !done.contains_key(pos_key(t)) || done[pos_key(t)] == vec,
        vec@.len() > 0,
        forall|i: int| 0 <= i < vec@.len() ==> lowest <= #[trigger] vec@[i],
        exists|i: int| 0 <= i < vec@.len() && vec@[i] == lowest,
        0 <= lowest < MAX_LEVEL,
        forall|p: ChunkPos|
            #[trigger] level_in(temp2, p) == min_int(level_in(temp, p), contribution(t, lowest as int, p)),
        forall|k: u64| #[trigger] temp2.contains_key(k) ==> 0 <= temp2[k] < MAX_LEVEL,
    ensures
        levels_from_tickets(done.insert(pos_key(t), vec), temp2),
{
    let done2 = done.insert(pos_key(t), vec);
    let li = choose|i: int| 0 <= i < vec@.len() && vec@[i] == lowest;
    assert(ticket_levels(done2, t) == vec@);
    assert forall|p: ChunkPos, t2: ChunkPos, i: int|
        0 <= i < ticket_levels(done2, t2).len() implies level_in(temp2, p) <= #[trigger] contribution(
            t2,
            ticket_levels(done2, t2)[i] as int,
            p,
        ) by {
        if t2 == t {
            assert(lowest <= vec@[i]);
        } else {
            assert(pos_key(t2) != pos_key(t));
            assert(ticket_levels(done2, t2) == ticket_levels(done, t2));
            assert(level_in(temp, p) <= contribution(t2, ticket_levels(done, t2)[i] as int, p));
        }
    }
    assert forall|p: ChunkPos| #[trigger] level_in(temp2, p) < MAX_LEVEL implies exists|t2: ChunkPos, i: int|
        #[trigger] ticket_source(done2, t2, i, p, level_in(temp2, p)) by {
        if level_in(temp2, p) == contribution(t, lowest as int, p) {
            assert(ticket_source(done2, t, li, p, level_in(temp2, p)));
        } else {
            let (t2, i) = choose|t2: ChunkPos, i: int| #[trigger] ticket_source(done, t2, i, p, level_in(temp, p));
            if t2 == t {
                assert(ticket_levels(done, t2) == vec@);
            } else {
                assert(pos_key(t2) != pos_key(t));
            }
            assert(ticket_levels(done2, t2) == ticket_levels(done, t2));
            assert(ticket_source(done2, t2, i, p, level_in(temp2, p)));
        }
    }
}

/// Recording two stage moves of a chunk one after the other leaves the same
/// pending change as recording the single move from the first stage to the
/// last; in particular a move that is undone leaves no trace. (The pending
/// change must end at the first stage and start at another one, as the
/// chunk loading state keeps it.)
pub proof fn lemma_recorded_composes(e: Option<(u8, u8)>, s0: u8, s1: u8, s2: u8)
    requires
        e matches Some(pair) ==> pair.1 == s0 && pair.0 != pair.1,
    ensures
        recorded(recorded(e, s0, s1), s1, s2) == recorded(e, s0, s2),
        recorded(recorded(e, s0, s1), s1, s0) == e,
{
}

/// The pending changes are exactly the chunks whose stage differs from the
/// stage `sent` last handed out for them, each from that stage to the
/// current one.
pub open spec fn changes_since(c: Map<u64, (u8, u8)>, m: Map<u64, i8>, table: Seq<u8>, sent: spec_fn(u64) -> u8) -> bool {
    forall|k: u64|
        #[trigger] pending(c, k) == if sent(k) != stage(table, level_at_key(m, k)) {
            Some((sent(k), stage(table, level_at_key(m, k))))
        } else {
            None
        }
}

/// With no pending changes, the stages last handed out are the current ones
/// (as after sending the changes, or before any level is set).
pub proof fn lemma_changes_since_send(m: Map<u64, i8>, table: Seq<u8>)
    ensures
        changes_since(Map::empty(), m, table, |k: u64| stage(table, level_at_key(m, k))),
{
}

/// Every level update records its stage moves so that the pending changes
/// stay, with respect to the stages last handed out, exactly the chunks
/// whose stage differs from them.
pub proof fn lemma_changes_since_kept(
    c: Map<u64, (u8, u8)>,
    m: Map<u64, i8>,
    c2: Map<u64, (u8, u8)>,
    m2: Map<u64, i8>,
    table: Seq<u8>,
    sent: spec_fn(u64) -> u8,
)
    requires
        changes_since(c, m, table, sent),
        forall|k: u64|
            #[trigger] pending(c2, k) == recorded(
                pending(c, k),
                stage(table, level_at_key(m, k)),
                stage(table, level_at_key(m2, k)),
            ),
    ensures
        changes_since(c2, m2, table, sent),
{
    assert forall|k: u64| #[trigger] pending(c2, k) == if sent(k) != stage(table, level_at_key(m2, k)) {
        Some((sent(k), stage(table, level_at_key(m2, k))))
    } else {
        None
    } by {
        let s0 = stage(table, level_at_key(m, k));
        let s1 = stage(table, level_at_key(m2, k));
        assert(pending(c, k) == recorded(None, sent(k), s0));
        lemma_recorded_composes(None, sent(k), s0, s1);
    }
}

/// Two tickets added in either order give the same levels, the same
/// pending changes and, at every position, the same ticket levels up to
/// their order.
pub proof fn lemma_add_tickets_commute(
    tk0: Map<u64, Vec<i8>>,
    m0: Map<u64, i8>,
    c0: Map<u64, (u8, u8)>,
    tka: Map<u64, Vec<i8>>,
    ma: Map<u64, i8>,
    ca: Map<u64, (u8, u8)>,
    tkab: Map<u64, Vec<i8>>,
    mab: Map<u64, i8>,
    cab: Map<u64, (u8, u8)>,
    tkb: Map<u64, Vec<i8>>,
    mb: Map<u64, i8>,
    cb: Map<u64, (u8, u8)>,
    tkba: Map<u64, Vec<i8>>,
    mba: Map<u64, i8>,
    cba: Map<u64, (u8, u8)>,
    table: Seq<u8>,
    a: ChunkPos,
    la: i8,
    b: ChunkPos,
    lb: i8,
)
    requires
        changes_track_levels(c0, m0, table),
        forall|p: ChunkPos|
            #[trigger] ticket_levels(tka, p) == if p == a { ticket_levels(tk0, p).push(la) } else { ticket_levels(tk0, p) },
        forall|p: ChunkPos|
            #[trigger] ticket_levels(tkab, p) == if p == b { ticket_levels(tka, p).push(lb) } else { ticket_levels(tka, p) },
        forall|p: ChunkPos|
            #[trigger] ticket_levels(tkb, p) == if p == b { ticket_levels(tk0, p).push(lb) } else { ticket_levels(tk0, p) },
        forall|p: ChunkPos|
            #[trigger] ticket_levels(tkba, p) == if p == a { ticket_levels(tkb, p).push(la) } else { ticket_levels(tkb, p) },
        levels_from_tickets(tkab, mab),
        levels_from_tickets(tkba, mba),
        forall|k: u64|
            #[trigger] pending(ca, k) == recorded(pending(c0, k), stage(table, level_at_key(m0, k)), stage(table, level_at_key(ma, k))),
        forall|k: u64|
            #[trigger] pending(cab, k) == recorded(pending(ca, k), stage(table, level_at_key(ma, k)), stage(table, level_at_key(mab, k))),
        forall|k: u64|
            #[trigger] pending(cb, k) == recorded(pending(c0, k), stage(table, level_at_key(m0, k)), stage(table, level_at_key(mb, k))),
        forall|k: u64|
            #[trigger] pending(cba, k) == recorded(pending(cb, k), stage(table, level_at_key(mb, k)), stage(table, level_at_key(mba, k))),
    ensures
        mab == mba,
        cab == cba,
        forall|p: ChunkPos| #[trigger] ticket_levels(tkab, p).to_multiset() == ticket_levels(tkba, p).to_multiset(),
{
    broadcast use vstd::seq_lib::group_to_multiset_ensures;

    assert forall|p: ChunkPos| #[trigger] ticket_levels(tkab, p).to_multiset() == ticket_levels(tkba, p).to_multiset() by {
        let s = ticket_levels(tk0, p);
        if p == a && p == b {
            assert(s.push(la).push(lb).to_multiset() =~= s.push(lb).push(la).to_multiset());
        }
    }
    assert forall|t: ChunkPos, l: i8| #[trigger] ticket_levels(tkab, t).contains(l) <==> #[trigger] ticket_levels(tkba, t).contains(l) by {
        assert(ticket_levels(tkab, t).to_multiset() == ticket_levels(tkba, t).to_multiset());
        ticket_levels(tkab, t).to_multiset_ensures();
        ticket_levels(tkba, t).to_multiset_ensures();
        assert(ticket_levels(tkab, t).to_multiset().count(l) == ticket_levels(tkba, t).to_multiset().count(l));
    }
    lemma_levels_unique(tkab, mab, tkba, mba);
    assert forall|k: u64| #[trigger] pending(cab, k) == pending(cba, k) by {
        let e = pending(c0, k);
        let s0 = stage(table, level_at_key(m0, k));
        let s2 = stage(table, level_at_key(mab, k));
        lemma_recorded_composes(e, s0, stage(table, level_at_key(ma, k)), s2);
        lemma_recorded_composes(e, s0, stage(table, level_at_key(mb, k)), s2);
    }
    assert forall|k: u64| #[trigger] cab.contains_key(k) <==> cba.contains_key(k) by {
        assert(pending(cab, k) == pending(cba, k));
    }
    assert forall|k: u64| #[trigger] cab.contains_key(k) implies cab[k] == cba[k] by {
        assert(pending(cab, k) == pending(cba, k));
    }
    assert(cab =~= cba);
}

} // verus!
