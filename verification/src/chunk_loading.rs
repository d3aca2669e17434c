//! Ticket-driven chunk loading: the tickets, the level of every loaded
//! chunk (see `chunk_levels` for what the levels are), the pending stage
//! changes and the forced chunks. Every level change that moves a chunk to
//! another generation stage is collected until the next send.

use std::collections::HashMap;
use vstd::prelude::*;
use vstd::std_specs::iter::IteratorSpec;
use crate::chunk_levels::{
    changes_track_levels, contribution, exact_level, is_lowest_ticket, lemma_add_ticket_levels,
    lemma_dominated, lemma_exact_levels, lemma_levels_unique, lemma_nearby_exact,
    lemma_recorded_tracks, lemma_remove_keeps_all, lemma_removed_keeps, lemma_take_in_ticket,
    level_at_key, level_in, levels_from_tickets, lists_nearby, min_int, pending, pos_fits, recorded,
    removal_step, removed_at, ring_visited, spread_level, stage, ticket_levels, ticket_source,
    tickets_valid, with_pending,
};
use crate::chunk_pos::{
    dist, group_pos_key, key_of, key_pos, pos_key, pos_of, ChunkPos,
};
use crate::chunk_view_lut::{
    get_chebyshev_ring, lemma_ring_index, lemma_ring_offset, offset_is, ring_index,
    ring_len, ring_offset,
};

verus! {

broadcast use vstd::std_specs::hash::group_hash_axioms, group_pos_key;

/// Level at which a chunk is fully loaded.
pub const FULL_CHUNK_LEVEL: i8 = 43;

/// Levels at or above this one are unloaded.
pub const MAX_LEVEL: i8 = 49;

/// The generation stage reached at each ticket level: entry `level + 128`
/// holds the stage of `level`.
pub struct StageTable {
    stage_of_level: Vec<u8>,
}

impl View for StageTable {
    type V = Seq<u8>;

    closed spec fn view(&self) -> Seq<u8> {
        self.stage_of_level@
    }
}

impl StageTable {
    pub open spec fn wf(&self) -> bool {
        self@.len() == 256
    }

    /// A table from the stage of every level from `-128` to `127`, in order.
    pub fn new(stage_of_level: Vec<u8>) -> (t: Option<StageTable>)
        ensures
            t is Some <==> stage_of_level.len() == 256,
            t matches Some(t) ==> t@ == stage_of_level@ && t.wf(),
    {
        if stage_of_level.len() == 256 {
            Some(StageTable { stage_of_level })
        } else {
            None
        }
    }

    /// The generation stage of a level.
    pub fn level_to_stage(&self, level: i8) -> (s: u8)
        requires
            self.wf(),
        ensures
            s == stage(self@, level as int),
    {
        let i: i16 = level as i16 + 128;
        self.stage_of_level[i as usize]
    }
}

/// Chunk loading state: the tickets, the level of every loaded chunk, the
/// pending stage changes and the forced chunks in priority order.
pub struct ChunkLoading {
    is_priority_dirty: bool,
    pos_level: HashMap<u64, i8>,
    change: HashMap<u64, (u8, u8)>,
    ticket: HashMap<u64, Vec<i8>>,
    high_priority: Vec<ChunkPos>,
    stages: StageTable,
}

impl ChunkLoading {
    /// Level of every loaded chunk, by position key.
    pub closed spec fn levels(&self) -> Map<u64, i8> {
        self.pos_level@
    }

    /// Ticket levels, by position key.
    pub closed spec fn tickets(&self) -> Map<u64, Vec<i8>> {
        self.ticket@
    }

    /// Pending `(from, to)` stage changes, by position key.
    pub closed spec fn changes(&self) -> Map<u64, (u8, u8)> {
        self.change@
    }

    /// The forced chunks, in priority order.
    pub closed spec fn priority(&self) -> Seq<ChunkPos> {
        self.high_priority@
    }

    /// Whether the priority list changed since it was last sent.
    pub closed spec fn priority_dirty(&self) -> bool {
        self.is_priority_dirty
    }

    /// The stage of every level.
    pub closed spec fn stage_table(&self) -> Seq<u8> {
        self.stages@
    }

    pub open spec fn wf(&self) -> bool {
        &&& self.stage_table().len() == 256
        &&& tickets_valid(self.tickets())
        &&& levels_from_tickets(self.tickets(), self.levels())
        &&& changes_track_levels(self.changes(), self.levels(), self.stage_table())
    }

    /// The level of a position in this state.
    pub open spec fn level_of(&self, p: ChunkPos) -> int {
        level_in(self.levels(), p)
    }

    /// Records that the chunk at key `k` moved from `old_level` to
    /// `new_level`.
    fn record_change(
        change: &mut HashMap<u64, (u8, u8)>,
        stages: &StageTable,
        k: u64,
        old_level: i8,
        new_level: i8,
    )
        requires
            stages.wf(),
            pending(old(change)@, k) matches Some(e) ==> e.1 == stage(stages@, old_level as int),
        ensures
            final(change)@ == with_pending(
                old(change)@,
                k,
                recorded(
                    pending(old(change)@, k),
                    stage(stages@, old_level as int),
                    stage(stages@, new_level as int),
                ),
            ),
    {
        if old_level == new_level {
            proof {
                assert(change@ =~= with_pending(change@, k, pending(change@, k)));
            }
            return;
        }
        let old_stage = stages.level_to_stage(old_level);
        let new_stage = stages.level_to_stage(new_level);
        if old_stage == new_stage {
            proof {
                assert(change@ =~= with_pending(change@, k, pending(change@, k)));
            }
            return;
        }
        let entry = change.get(&k);
        match entry {
            Some(e) => {
                let from = e.0;
                if from == new_stage {
                    change.remove(&k);
                } else {
                    change.insert(k, (from, new_stage));
                }
            },
            None => {
                change.insert(k, (old_stage, new_stage));
            },
        }
    }

    /// Adds a ticket of level `level` at `pos` and lowers the levels around
    /// it to what it asks.
    pub fn add_ticket(&mut self, pos: ChunkPos, level: i8)
        requires
            old(self).wf(),
            0 <= level < MAX_LEVEL,
            pos_fits(pos, level as int),
        ensures
            final(self).wf(),
            final(self).tickets().dom() == old(self).tickets().dom().insert(pos_key(pos)),
            forall|p: ChunkPos|
                #[trigger] ticket_levels(final(self).tickets(), p) == if p == pos {
                    ticket_levels(old(self).tickets(), p).push(level)
                } else {
                    ticket_levels(old(self).tickets(), p)
                },
            forall|p: ChunkPos|
                #[trigger] final(self).level_of(p) == min_int(
                    old(self).level_of(p),
                    contribution(pos, level as int, p),
                ),
            forall|k: u64|
                #[trigger] pending(final(self).changes(), k) == recorded(
                    pending(old(self).changes(), k),
                    stage(old(self).stage_table(), level_at_key(old(self).levels(), k)),
                    stage(old(self).stage_table(), level_at_key(final(self).levels(), k)),
                ),
            final(self).priority() == old(self).priority(),
            final(self).priority_dirty() == old(self).priority_dirty(),
            final(self).stage_table() == old(self).stage_table(),
    {
        let ghost tk0 = self.ticket@;
        let ghost m0 = self.pos_level@;
        let ghost c0 = self.change@;
        let k = key_of(pos);
        let mut levels = match self.ticket.remove(&k) {
            Some(v) => v,
            None => Vec::new(),
        };
        levels.push(level);
        self.ticket.insert(k, levels);
        let ghost tk1 = self.ticket@;
        assert forall|p: ChunkPos|
            #[trigger] ticket_levels(tk1, p) == if p == pos {
                ticket_levels(tk0, p).push(level)
            } else {
                ticket_levels(tk0, p)
            } by {
            if p != pos {
                assert(pos_key(p) != pos_key(pos));
            }
        }
        assert(tk1.dom() =~= tk0.dom().insert(pos_key(pos)));
        assert(tickets_valid(tk1)) by {
            assert forall|kk: u64| #[trigger] tk1.contains_key(kk) implies tk1[kk]@.len() > 0 && forall|i: int|
                0 <= i < tk1[kk]@.len() ==> 0 <= #[trigger] tk1[kk]@[i] < MAX_LEVEL by {
                assert(ticket_levels(tk1, key_pos(kk)) == tk1[kk]@);
                if kk != k {
                    assert(ticket_levels(tk0, key_pos(kk)) == tk0[kk]@);
                } else {
                    assert(ticket_levels(tk0, pos).push(level) == tk1[kk]@);
                }
            }
        }
        let old_level = match self.pos_level.get(&k) {
            Some(v) => *v,
            None => MAX_LEVEL,
        };
        if old_level <= level {
            proof {
                assert forall|p: ChunkPos| #[trigger] level_in(m0, p) == min_int(
                    level_in(m0, p),
                    contribution(pos, level as int, p),
                ) by {
                    lemma_dominated(tk0, m0, pos, level as int, p);
                }
                lemma_add_ticket_levels(tk0, m0, tk1, m0, pos, level as int);
                assert forall|kk: u64| #[trigger] pending(c0, kk) == recorded(
                    pending(c0, kk),
                    stage(self.stages@, level_at_key(m0, kk)),
                    stage(self.stages@, level_at_key(m0, kk)),
                ) by {}
            }
            return;
        }
        let max_range: u8 = (MAX_LEVEL - level - 1) as u8;
        let mut r: u8 = 0;
        while r <= max_range
            invariant
                0 <= level < MAX_LEVEL,
                max_range == MAX_LEVEL - 1 - level,
                0 <= r <= max_range + 1,
                pos_fits(pos, level as int),
                self.stages.wf(),
                self.ticket@ == tk1,
                changes_track_levels(c0, m0, self.stages@),
                forall|kk: u64| #[trigger] m0.contains_key(kk) ==> 0 <= m0[kk] < MAX_LEVEL,
                forall|kk: u64| #[trigger] self.pos_level@.contains_key(kk) ==> 0 <= self.pos_level@[kk] < MAX_LEVEL,
                forall|kk: u64|
                    #[trigger] level_at_key(self.pos_level@, kk) == spread_level(m0, pos, level as int, r as int, 0, kk),
                forall|kk: u64|
                    #[trigger] pending(self.change@, kk) == recorded(
                        pending(c0, kk),
                        stage(self.stages@, level_at_key(m0, kk)),
                        stage(self.stages@, level_at_key(self.pos_level@, kk)),
                    ),
                self.high_priority@ == old(self).high_priority@,
                self.is_priority_dirty == old(self).is_priority_dirty,
                self.stages@ == old(self).stages@,
            decreases max_range + 1 - r,
        {
            let ring = get_chebyshev_ring(r);
            assert(crate::chunk_view_lut::clamp_radius(r as int) == r);
            assert(forall|i: int| 0 <= i < ring.len() ==> #[trigger] offset_is(ring@[i], ring_offset(r as int, i)));
            let ring_level: i8 = level + r as i8;
            let mut j: usize = 0;
            while j < ring.len()
                invariant
                    0 <= level < MAX_LEVEL,
                    max_range == MAX_LEVEL - 1 - level,
                    0 <= r <= max_range,
                    ring_level == level + r,
                    pos_fits(pos, level as int),
                    ring.len() == ring_len(r as int),
                    forall|i: int| 0 <= i < ring.len() ==> #[trigger] offset_is(ring@[i], ring_offset(r as int, i)),
                    0 <= j <= ring.len(),
                    self.stages.wf(),
                    self.ticket@ == tk1,
                    changes_track_levels(c0, m0, self.stages@),
                    forall|kk: u64| #[trigger] m0.contains_key(kk) ==> 0 <= m0[kk] < MAX_LEVEL,
                    forall|kk: u64| #[trigger] self.pos_level@.contains_key(kk) ==> 0 <= self.pos_level@[kk] < MAX_LEVEL,
                    forall|kk: u64|
                        #[trigger] level_at_key(self.pos_level@, kk) == spread_level(m0, pos, level as int, r as int, j as int, kk),
                    forall|kk: u64|
                        #[trigger] pending(self.change@, kk) == recorded(
                            pending(c0, kk),
                            stage(self.stages@, level_at_key(m0, kk)),
                            stage(self.stages@, level_at_key(self.pos_level@, kk)),
                        ),
                    self.high_priority@ == old(self).high_priority@,
                    self.is_priority_dirty == old(self).is_priority_dirty,
                    self.stages@ == old(self).stages@,
                decreases ring.len() - j,
            {
                let (dx, dy) = ring[j];
                proof {
                    assert(offset_is(ring@[j as int], ring_offset(r as int, j as int)));
                    lemma_ring_offset(r as int, j as int);
                }
                let p = pos.add_raw(dx as i32, dy as i32);
                let pk = key_of(p);
                let ghost m_before = self.pos_level@;
                let ghost c_before = self.change@;
                proof {
                    assert(key_pos(pk) == p);
                    assert(dist(p, pos) == r);
                    assert(ring_index(r as int, p.x - pos.x, p.y - pos.y) == j);
                    assert(level_at_key(m_before, pk) == level_at_key(m0, pk));
                    assert(pending(c_before, pk) == pending(c0, pk));
                }
                let cur = match self.pos_level.get(&pk) {
                    Some(v) => *v,
                    None => MAX_LEVEL,
                };
                if cur > ring_level {
                    self.pos_level.insert(pk, ring_level);
                    Self::record_change(&mut self.change, &self.stages, pk, cur, ring_level);
                }
                proof {
                    assert forall|kk: u64|
                        #[trigger] level_at_key(self.pos_level@, kk) == spread_level(
                            m0,
                            pos,
                            level as int,
                            r as int,
                            j + 1,
                            kk,
                        ) by {
                        if kk != pk {
                            let q = key_pos(kk);
                            if dist(q, pos) == r {
                                lemma_ring_index(r as int, q.x - pos.x, q.y - pos.y);
                                if ring_index(r as int, q.x - pos.x, q.y - pos.y) == j {
                                    assert(q == p);
                                }
                            }
                            assert(level_at_key(self.pos_level@, kk) == level_at_key(m_before, kk));
                        }
                    }
                    assert forall|kk: u64|
                        #[trigger] pending(self.change@, kk) == recorded(
                            pending(c0, kk),
                            stage(self.stages@, level_at_key(m0, kk)),
                            stage(self.stages@, level_at_key(self.pos_level@, kk)),
                        ) by {
                        if kk != pk {
                            assert(pending(self.change@, kk) == pending(c_before, kk));
                            assert(level_at_key(self.pos_level@, kk) == level_at_key(m_before, kk));
                        }
                    }
                }
                j = j + 1;
            }
            proof {
                assert forall|kk: u64|
                    #[trigger] level_at_key(self.pos_level@, kk) == spread_level(
                        m0,
                        pos,
                        level as int,
                        r + 1,
                        0,
                        kk,
                    ) by {
                    let q = key_pos(kk);
                    if dist(q, pos) == r {
                        lemma_ring_index(r as int, q.x - pos.x, q.y - pos.y);
                    }
                    assert(level_at_key(self.pos_level@, kk) == spread_level(m0, pos, level as int, r as int, j as int, kk));
                }
            }
            r = r + 1;
        }
        proof {
            let m2 = self.pos_level@;
            assert forall|p: ChunkPos| #[trigger] level_in(m2, p) == min_int(
                level_in(m0, p),
                contribution(pos, level as int, p),
            ) by {
                assert(level_at_key(m2, pos_key(p)) == spread_level(m0, pos, level as int, r as int, 0, pos_key(p)));
            }
            lemma_add_ticket_levels(tk0, m0, tk1, m2, pos, level as int);
            assert forall|kk: u64| #[trigger] self.change@.contains_key(kk) implies self.change@[kk].1 == stage(
                self.stages@,
                level_at_key(m2, kk),
            ) && self.change@[kk].0 != self.change@[kk].1 by {
                lemma_recorded_tracks(
                    pending(c0, kk),
                    stage(self.stages@, level_at_key(m0, kk)),
                    stage(self.stages@, level_at_key(m2, kk)),
                );
                assert(pending(self.change@, kk) == Some(self.change@[kk]));
            }
        }
    }
}


/// Chebyshev distance between two positions.
pub fn chebyshev_distance(a: ChunkPos, b: ChunkPos) -> (d: i64)
    ensures
        d == dist(a, b),
{
    let dx: i64 = a.x as i64 - b.x as i64;
    let dy: i64 = a.y as i64 - b.y as i64;
    let ax: i64 = if dx < 0 { -dx } else { dx };
    let ay: i64 = if dy < 0 { -dy } else { dy };
    if ax < ay { ay } else { ax }
}

/// Index of the first occurrence of `v`, as a scan from the front finds it.
pub fn position_of(s: &Vec<i8>, v: i8) -> (res: Option<usize>)
    ensures
        res matches Some(i) ==> i < s.len() && s@[i as int] == v && forall|j: int| 0 <= j < i ==> s@[j] != v,
        res is None ==> forall|j: int| 0 <= j < s.len() ==> s@[j] != v,
{
    let mut i: usize = 0;
    while i < s.len()
        invariant
            i <= s.len(),
            forall|j: int| 0 <= j < i ==> s@[j] != v,
        decreases s.len() - i,
    {
        if s[i] == v {
            return Some(i);
        }
        i = i + 1;
    }
    None
}

/// The lowest of a list of levels, or `MAX_LEVEL` when it is empty.
fn lowest_level(s: &Vec<i8>) -> (m: i8)
    requires
        forall|i: int| 0 <= i < s.len() ==> s@[i] < MAX_LEVEL,
    ensures
        forall|i: int| 0 <= i < s.len() ==> m <= s@[i],
        s.len() > 0 ==> exists|i: int| 0 <= i < s.len() && s@[i] == m,
        s.len() == 0 ==> m == MAX_LEVEL,
{
    let mut m: i8 = MAX_LEVEL;
    let mut i: usize = 0;
    let ghost mut w: int = -1;
    while i < s.len()
        invariant
            i <= s.len(),
            forall|j: int| 0 <= j < s.len() ==> s@[j] < MAX_LEVEL,
            forall|j: int| 0 <= j < i ==> m <= s@[j],
            w == -1 ==> m == MAX_LEVEL && i == 0,
            w != -1 ==> 0 <= w < i && s@[w] == m,
            i > 0 ==> w != -1,
        decreases s.len() - i,
    {
        if s[i] < m || i == 0 {
            m = s[i];
            proof {
                w = i as int;
            }
        }
        i = i + 1;
    }
    m
}

/// The lowest level that the listed tickets ask of `p`, or `MAX_LEVEL`.
fn lowest_asked(nearby: &Vec<(ChunkPos, i8)>, p: ChunkPos) -> (best: i8)
    requires
        forall|j: int| 0 <= j < nearby.len() ==> 0 <= (#[trigger] nearby@[j]).1 < MAX_LEVEL,
    ensures
        0 <= best <= MAX_LEVEL,
        forall|j: int|
            0 <= j < nearby.len() ==> best <= #[trigger] contribution(nearby@[j].0, nearby@[j].1 as int, p),
        best < MAX_LEVEL ==> exists|j: int|
            0 <= j < nearby.len() && best == #[trigger] contribution(nearby@[j].0, nearby@[j].1 as int, p),
{
    let mut best: i8 = MAX_LEVEL;
    let mut j: usize = 0;
    let ghost mut w: int = -1;
    while j < nearby.len()
        invariant
            j <= nearby.len(),
            forall|q: int| 0 <= q < nearby.len() ==> 0 <= (#[trigger] nearby@[q]).1 < MAX_LEVEL,
            0 <= best <= MAX_LEVEL,
            forall|q: int|
                0 <= q < j ==> best <= #[trigger] contribution(nearby@[q].0, nearby@[q].1 as int, p),
            best < MAX_LEVEL ==> 0 <= w < j && best == contribution(nearby@[w].0, nearby@[w].1 as int, p),
        decreases nearby.len() - j,
    {
        let (t, l) = nearby[j];
        let lvl: i64 = l as i64 + chebyshev_distance(p, t);
        if lvl < best as i64 {
            best = lvl as i8;
            proof {
                w = j as int;
            }
        }
        j = j + 1;
    }
    if best < MAX_LEVEL {
        assert(contribution(nearby@[w].0, nearby@[w].1 as int, p) == best);
    }
    best
}


impl ChunkLoading {
    /// The tickets whose levels may reach a position within `range` of `pos`,
    /// each with its lowest level.
    fn nearby_tickets(&self, pos: ChunkPos, range: i8) -> (res: Vec<(ChunkPos, i8)>)
        requires
            tickets_valid(self.ticket@),
            0 <= range < MAX_LEVEL,
        ensures
            lists_nearby(self.ticket@, res@, pos, range as int),
            forall|j: int| 0 <= j < res.len() ==> 0 <= (#[trigger] res@[j]).1 < MAX_LEVEL,
    {
        let ghost tk = self.ticket@;
        let mut res: Vec<(ChunkPos, i8)> = Vec::new();
        let ghost s = vstd::std_specs::hash::spec_hash_map_iter(&self.ticket).remaining();
        for (k, levels) in it: self.ticket.iter()
            invariant
                it.seq() == s,
                tk == self.ticket@,
                tickets_valid(tk),
                0 <= range < MAX_LEVEL,
                forall|j: int| 0 <= j < res.len() ==> is_lowest_ticket(tk, (#[trigger] res@[j]).0, res@[j].1),
                forall|j: int| 0 <= j < res.len() ==> 0 <= (#[trigger] res@[j]).1 < MAX_LEVEL,
                forall|q: int, i: int|
                    0 <= q < it.index() && 0 <= i < (*s[q].1)@.len() && #[trigger] (*s[q].1)@[i] + dist(
                        key_pos(*s[q].0),
                        pos,
                    ) < MAX_LEVEL + range ==> exists|j: int| 0 <= j < res.len() && (#[trigger] res@[j]).0 == key_pos(*s[q].0),
        {
            proof {
                vstd::std_specs::hash::axiom_spec_hash_map_iter(&self.ticket);
                assert(s[it.index() as int] == (k, levels));
                assert(tk.contains_key(*k));
                assert(tk[*k] == *levels);
            }
            let ghost q0 = it.index();
            let t = pos_of(*k);
            assert(ticket_levels(tk, t) == levels@);
            let lowest = lowest_level(levels);
            let t_range: i64 = (MAX_LEVEL - lowest - 1) as i64;
            let dx: i64 = t.x as i64 - pos.x as i64;
            let dy: i64 = t.y as i64 - pos.y as i64;
            let adx: i64 = if dx < 0 { -dx } else { dx };
            let ady: i64 = if dy < 0 { -dy } else { dy };
            let reach: i64 = range as i64 + t_range;
            let ghost res_before = res@;
            if adx <= reach && ady <= reach {
                res.push((t, lowest));
                proof {
                    assert(res@[res.len() - 1] == (t, lowest));
                }
            }
            proof {
                assert forall|j: int| 0 <= j < res.len() implies is_lowest_ticket(tk, (#[trigger] res@[j]).0, res@[j].1) by {
                    if j < res_before.len() {
                        assert(res@[j] == res_before[j]);
                    } else {
                        let i = choose|i: int| 0 <= i < levels@.len() && levels@[i] == lowest;
                        assert(ticket_levels(tk, t)[i] == lowest);
                    }
                }
                assert forall|q: int, i: int|
                    0 <= q < it.index() + 1 && 0 <= i < (*s[q].1)@.len() && #[trigger] (*s[q].1)@[i] + dist(
                        key_pos(*s[q].0),
                        pos,
                    ) < MAX_LEVEL + range implies exists|j: int| 0 <= j < res.len() && (#[trigger] res@[j]).0 == key_pos(*s[q].0) by {
                    if q < q0 {
                        let j = choose|j: int| 0 <= j < res_before.len() && (#[trigger] res_before[j]).0 == key_pos(*s[q].0);
                        assert(res@[j] == res_before[j]);
                    } else {
                        assert(lowest <= levels@[i]);
                        assert(res@[res.len() - 1].0 == key_pos(*s[q].0));
                    }
                }
            }
        }
        proof {
            vstd::std_specs::hash::axiom_spec_hash_map_iter(&self.ticket);
            assert forall|t: ChunkPos, i: int|
                0 <= i < ticket_levels(tk, t).len() && #[trigger] ticket_levels(tk, t)[i] + dist(t, pos)
                    < MAX_LEVEL + range implies exists|j: int| 0 <= j < res.len() && (#[trigger] res@[j]).0 == t by {
                let k = pos_key(t);
                assert(tk.contains_key(k));
                assert(s.contains((&k, &tk[k])));
                let q = choose|q: int| 0 <= q < s.len() && s[q] == (&k, &tk[k]);
                assert(*s[q].0 == k);
                assert((*s[q].1)@[i] == ticket_levels(tk, t)[i]);
            }
        }
        res
    }
}


/// The ticket levels at `t` once one ticket of level `level` at `pos` is
/// removed.
pub open spec fn levels_after_removal(tk: Map<u64, Vec<i8>>, pos: ChunkPos, level: i8, t: ChunkPos) -> Seq<i8> {
    if t == pos {
        ticket_levels(tk, pos).remove_value(level)
    } else {
        ticket_levels(tk, t)
    }
}

/// The distances that removing a ticket of level `level` at `pos` measures
/// fit in an `i8`. Removing the ticket lowers the chunks that only it held
/// down (those within its reach whose level is what it asked) to what the
/// other tickets within reach of them ask, and measures, as an `i8`, the
/// distance from each such chunk to each such ticket; no distance reaches
/// 128.
pub open spec fn removal_distances_fit(tk: Map<u64, Vec<i8>>, m: Map<u64, i8>, pos: ChunkPos, level: i8) -> bool {
    let r = MAX_LEVEL - level - 1;
    (ticket_levels(tk, pos).contains(level) && level_in(m, pos) == level
        && !levels_after_removal(tk, pos, level, pos).contains(level)) ==> forall|p: ChunkPos, t: ChunkPos, i: int|
        #![trigger dist(p, t), levels_after_removal(tk, pos, level, t)[i]]
        dist(p, pos) <= r && level_in(m, p) == level + dist(p, pos) && 0 <= i < levels_after_removal(
            tk,
            pos,
            level,
            t,
        ).len() && levels_after_removal(tk, pos, level, t)[i] + dist(t, pos) < MAX_LEVEL + r ==> dist(p, t) < 128
}

/// With the removed ticket and every ticket left at level 6 or more, the
/// distances that the removal measures fit in an `i8`.
pub proof fn lemma_removal_distances_fit(tk: Map<u64, Vec<i8>>, m: Map<u64, i8>, pos: ChunkPos, level: i8)
    requires
        6 <= level < MAX_LEVEL,
        forall|t: ChunkPos, i: int|
            0 <= i < levels_after_removal(tk, pos, level, t).len() ==> #[trigger] levels_after_removal(
                tk,
                pos,
                level,
                t,
            )[i] >= 6,
    ensures
        removal_distances_fit(tk, m, pos, level),
{
    let r = MAX_LEVEL - level - 1;
    assert forall|p: ChunkPos, t: ChunkPos, i: int|
        #![trigger dist(p, t), levels_after_removal(tk, pos, level, t)[i]]
        dist(p, pos) <= r && level_in(m, p) == level + dist(p, pos) && 0 <= i < levels_after_removal(
            tk,
            pos,
            level,
            t,
        ).len() && levels_after_removal(tk, pos, level, t)[i] + dist(t, pos) < MAX_LEVEL + r implies dist(p, t)
        < 128 by {
        assert(levels_after_removal(tk, pos, level, t)[i] >= 6);
        assert(dist(p, t) <= dist(p, pos) + dist(t, pos));
    }
}

impl ChunkLoading {
    /// Removes one ticket of level `level` at `pos`, if there is one, and
    /// raises the levels that only it held down. The distances it measures
    /// must fit in an `i8` (`removal_distances_fit`); with tickets of level
    /// 6 or more they always do.
    pub fn remove_ticket(&mut self, pos: ChunkPos, level: i8)
        requires
            old(self).wf(),
            level < MAX_LEVEL,
            removal_distances_fit(old(self).tickets(), old(self).levels(), pos, level),
        ensures
            final(self).wf(),
            final(self).tickets().dom() == if ticket_levels(old(self).tickets(), pos).remove_value(level).len() == 0 {
                old(self).tickets().dom().remove(pos_key(pos))
            } else {
                old(self).tickets().dom()
            },
            forall|p: ChunkPos|
                #[trigger] ticket_levels(final(self).tickets(), p) == if p == pos {
                    ticket_levels(old(self).tickets(), p).remove_value(level)
                } else {
                    ticket_levels(old(self).tickets(), p)
                },
            forall|k: u64|
                #[trigger] pending(final(self).changes(), k) == recorded(
                    pending(old(self).changes(), k),
                    stage(old(self).stage_table(), level_at_key(old(self).levels(), k)),
                    stage(old(self).stage_table(), level_at_key(final(self).levels(), k)),
                ),
            final(self).priority() == old(self).priority(),
            final(self).priority_dirty() == old(self).priority_dirty(),
            final(self).stage_table() == old(self).stage_table(),
    {
        let ghost tk0 = self.ticket@;
        let ghost m0 = self.pos_level@;
        let ghost c0 = self.change@;
        let ghost s0 = ticket_levels(tk0, pos);
        proof {
            s0.index_of_first_ensures(level);
        }
        let k = key_of(pos);
        let taken = self.ticket.remove(&k);
        let mut levels = match taken {
            Some(v) => v,
            None => {
                proof {
                    assert(self.ticket@ =~= tk0);
                    assert(s0.remove_value(level) =~= s0);
                    assert(forall|kk: u64| #[trigger] pending(c0, kk) == recorded(
                        pending(c0, kk),
                        stage(self.stages@, level_at_key(m0, kk)),
                        stage(self.stages@, level_at_key(m0, kk)),
                    ));
                }
                return;
            },
        };
        assert(levels@ == s0);
        let idx = match position_of(&levels, level) {
            Some(i) => {
                proof {
                    assert(tk0.contains_key(k));
                    assert(tk0[k]@[i as int] == level);
                }
                i
            },
            None => {
                self.ticket.insert(k, levels);
                proof {
                    assert(self.ticket@ =~= tk0);
                    assert(forall|kk: u64| #[trigger] pending(c0, kk) == recorded(
                        pending(c0, kk),
                        stage(self.stages@, level_at_key(m0, kk)),
                        stage(self.stages@, level_at_key(m0, kk)),
                    ));
                }
                return;
            },
        };
        proof {
            assert(s0.index_of_first(level) == Some(idx as int));
        }
        levels.remove(idx);
        let source = lowest_level(&levels);
        let ghost s1 = levels@;
        if levels.len() > 0 {
            self.ticket.insert(k, levels);
        }
        let ghost tk1 = self.ticket@;
        proof {
            assert(s1 == s0.remove(idx as int));
            assert forall|p: ChunkPos|
                #[trigger] ticket_levels(tk1, p) == if p == pos {
                    s0.remove_value(level)
                } else {
                    ticket_levels(tk0, p)
                } by {
                if p != pos {
                    assert(pos_key(p) != pos_key(pos));
                } else if s1.len() == 0 {
                    assert(s1 =~= Seq::<i8>::empty());
                }
            }
            assert(removed_at(tk0, tk1, pos, idx as int));
            if s1.len() == 0 {
                assert(tk1.dom() =~= tk0.dom().remove(pos_key(pos)));
            } else {
                assert(tk1.dom() =~= tk0.dom());
            }
            s0.remove_ensures(idx as int);
            assert forall|kk: u64| #[trigger] tk1.contains_key(kk) implies tk1[kk]@.len() > 0 && forall|i: int|
                0 <= i < tk1[kk]@.len() ==> 0 <= #[trigger] tk1[kk]@[i] < MAX_LEVEL && pos_fits(
                    key_pos(kk),
                    tk1[kk]@[i] as int,
                ) by {
                assert(tk0.contains_key(kk));
                if kk == k {
                    assert forall|i: int| 0 <= i < tk1[kk]@.len() implies 0 <= #[trigger] tk1[kk]@[i] < MAX_LEVEL
                        && pos_fits(key_pos(kk), tk1[kk]@[i] as int) by {
                        if i < idx {
                            assert(tk1[kk]@[i] == tk0[kk]@[i]);
                        } else {
                            assert(tk1[kk]@[i] == tk0[kk]@[i + 1]);
                        }
                    }
                }
            }
            assert(tickets_valid(tk1));
            assert(pos_fits(pos, level as int)) by {
                assert(tk0.contains_key(k));
                assert(tk0[k]@[idx as int] == level);
            }
        }
        let old_level = match self.pos_level.get(&k) {
            Some(v) => *v,
            None => MAX_LEVEL,
        };
        if level != old_level || source == level {
            proof {
                if source == level {
                    assert(s1.contains(level));
                }
                lemma_remove_keeps_all(tk0, tk1, m0, pos, idx as int, level as int);
                lemma_exact_levels(tk1, m0);
                assert(forall|kk: u64| #[trigger] pending(c0, kk) == recorded(
                    pending(c0, kk),
                    stage(self.stages@, level_at_key(m0, kk)),
                    stage(self.stages@, level_at_key(m0, kk)),
                ));
            }
            return;
        }
        let range: i8 = MAX_LEVEL - old_level - 1;
        let nearby = self.nearby_tickets(pos, range);
        let range_u: u8 = range as u8;
        let mut r: u8 = 0;
        while r <= range_u
            invariant
                0 <= level < MAX_LEVEL,
                old_level == level,
                level_in(m0, pos) == level,
                range == MAX_LEVEL - 1 - level,
                range_u == range,
                0 <= r <= range_u + 1,
                pos_fits(pos, level as int),
                self.stages.wf(),
                self.ticket@ == tk1,
                tickets_valid(tk1),
                removed_at(tk0, tk1, pos, idx as int),
                ticket_levels(tk0, pos)[idx as int] == level,
                levels_from_tickets(tk0, m0),
                lists_nearby(tk1, nearby@, pos, range as int),
                forall|q: int| 0 <= q < nearby.len() ==> 0 <= (#[trigger] nearby@[q]).1 < MAX_LEVEL,
                changes_track_levels(c0, m0, self.stages@),
                forall|kk: u64| #[trigger] self.pos_level@.contains_key(kk) ==> 0 <= self.pos_level@[kk] < MAX_LEVEL,
                forall|kk: u64|
                    #[trigger] removal_step(
                        tk1,
                        m0,
                        self.pos_level@,
                        pos,
                        level as int,
                        r as int,
                        0,
                        kk,
                    ),
                forall|kk: u64|
                    #[trigger] pending(self.change@, kk) == recorded(
                        pending(c0, kk),
                        stage(self.stages@, level_at_key(m0, kk)),
                        stage(self.stages@, level_at_key(self.pos_level@, kk)),
                    ),
                self.high_priority@ == old(self).high_priority@,
                self.is_priority_dirty == old(self).is_priority_dirty,
                self.stages@ == old(self).stages@,
            decreases range_u + 1 - r,
        {
            let ring = get_chebyshev_ring(r);
            assert(crate::chunk_view_lut::clamp_radius(r as int) == r);
            assert(forall|i: int| 0 <= i < ring.len() ==> #[trigger] offset_is(ring@[i], ring_offset(r as int, i)));
            let removed_contrib: i8 = old_level + r as i8;
            let mut j: usize = 0;
            while j < ring.len()
                invariant
                    0 <= level < MAX_LEVEL,
                    old_level == level,
                    level_in(m0, pos) == level,
                    range == MAX_LEVEL - 1 - level,
                    0 <= r <= range,
                    removed_contrib == level + r,
                    pos_fits(pos, level as int),
                    ring.len() == ring_len(r as int),
                    forall|i: int| 0 <= i < ring.len() ==> #[trigger] offset_is(ring@[i], ring_offset(r as int, i)),
                    0 <= j <= ring.len(),
                    self.stages.wf(),
                    self.ticket@ == tk1,
                    tickets_valid(tk1),
                    lists_nearby(tk1, nearby@, pos, range as int),
                    forall|q: int| 0 <= q < nearby.len() ==> 0 <= (#[trigger] nearby@[q]).1 < MAX_LEVEL,
                    changes_track_levels(c0, m0, self.stages@),
                    forall|kk: u64| #[trigger] self.pos_level@.contains_key(kk) ==> 0 <= self.pos_level@[kk] < MAX_LEVEL,
                    forall|kk: u64|
                        #[trigger] removal_step(
                            tk1,
                            m0,
                            self.pos_level@,
                            pos,
                            level as int,
                            r as int,
                            j as int,
                            kk,
                        ),
                    forall|kk: u64|
                        #[trigger] pending(self.change@, kk) == recorded(
                            pending(c0, kk),
                            stage(self.stages@, level_at_key(m0, kk)),
                            stage(self.stages@, level_at_key(self.pos_level@, kk)),
                        ),
                    self.high_priority@ == old(self).high_priority@,
                    self.is_priority_dirty == old(self).is_priority_dirty,
                    self.stages@ == old(self).stages@,
                decreases ring.len() - j,
            {
                let (dx, dy) = ring[j];
                proof {
                    assert(offset_is(ring@[j as int], ring_offset(r as int, j as int)));
                    lemma_ring_offset(r as int, j as int);
                }
                let p = pos.add_raw(dx as i32, dy as i32);
                let pk = key_of(p);
                let ghost m_before = self.pos_level@;
                let ghost c_before = self.change@;
                proof {
                    assert(key_pos(pk) == p);
                    assert(dist(p, pos) == r);
                    assert(ring_index(r as int, p.x - pos.x, p.y - pos.y) == j);
                    assert(!ring_visited(pos, r as int, j as int, pk));
                    assert(removal_step(tk1, m0, m_before, pos, level as int, r as int, j as int, pk));
                    assert(level_at_key(m_before, pk) == level_at_key(m0, pk));
                    assert(pending(c_before, pk) == pending(c0, pk));
                }
                let cur = match self.pos_level.get(&pk) {
                    Some(v) => *v,
                    None => MAX_LEVEL,
                };
                if cur == removed_contrib {
                    let new_level = lowest_asked(&nearby, p);
                    proof {
                        lemma_nearby_exact(tk1, nearby@, pos, range as int, p, new_level as int);
                    }
                    if new_level != cur {
                        if new_level == MAX_LEVEL {
                            self.pos_level.remove(&pk);
                        } else {
                            self.pos_level.insert(pk, new_level);
                        }
                        Self::record_change(&mut self.change, &self.stages, pk, cur, new_level);
                    }
                    assert(level_at_key(self.pos_level@, pk) == new_level);
                }
                proof {
                    assert forall|kk: u64|
                        #[trigger] removal_step(
                            tk1,
                            m0,
                            self.pos_level@,
                            pos,
                            level as int,
                            r as int,
                            j + 1,
                            kk,
                        ) by {
                        if kk != pk {
                            let q = key_pos(kk);
                            if dist(q, pos) == r {
                                lemma_ring_index(r as int, q.x - pos.x, q.y - pos.y);
                                if ring_index(r as int, q.x - pos.x, q.y - pos.y) == j {
                                    assert(q == p);
                                }
                            }
                            assert(level_at_key(self.pos_level@, kk) == level_at_key(m_before, kk));
                            assert(removal_step(tk1, m0, m_before, pos, level as int, r as int, j as int, kk));
                        }
                    }
                    assert forall|kk: u64|
                        #[trigger] pending(self.change@, kk) == recorded(
                            pending(c0, kk),
                            stage(self.stages@, level_at_key(m0, kk)),
                            stage(self.stages@, level_at_key(self.pos_level@, kk)),
                        ) by {
                        if kk != pk {
                            assert(pending(self.change@, kk) == pending(c_before, kk));
                            assert(level_at_key(self.pos_level@, kk) == level_at_key(m_before, kk));
                        }
                    }
                }
                j = j + 1;
            }
            proof {
                assert forall|kk: u64|
                    #[trigger] removal_step(
                        tk1,
                        m0,
                        self.pos_level@,
                        pos,
                        level as int,
                        r + 1,
                        0,
                        kk,
                    ) by {
                    let q = key_pos(kk);
                    if dist(q, pos) == r {
                        lemma_ring_index(r as int, q.x - pos.x, q.y - pos.y);
                    }
                    assert(removal_step(tk1, m0, self.pos_level@, pos, level as int, r as int, j as int, kk));
                }
            }
            r = r + 1;
        }
        proof {
            let m2 = self.pos_level@;
            assert forall|p: ChunkPos| #[trigger] exact_level(tk1, p, level_in(m2, p)) by {
                let kk = pos_key(p);
                assert(removal_step(tk1, m0, m2, pos, level as int, r as int, 0, kk));
                if !(ring_visited(pos, r as int, 0, kk) && level_at_key(m0, kk) == level + dist(p, pos)) {
                    let v = level_in(m0, p);
                    if v == MAX_LEVEL {
                        lemma_removed_keeps(tk0, tk1, m0, pos, idx as int, p, pos, idx as int);
                    } else {
                        let (t, i) = choose|t: ChunkPos, i: int| #[trigger] ticket_source(tk0, t, i, p, v);
                        lemma_removed_keeps(tk0, tk1, m0, pos, idx as int, p, t, i);
                    }
                }
            }
            lemma_exact_levels(tk1, m2);
            assert forall|kk: u64| #[trigger] self.change@.contains_key(kk) implies self.change@[kk].1 == stage(
                self.stages@,
                level_at_key(m2, kk),
            ) && self.change@[kk].0 != self.change@[kk].1 by {
                lemma_recorded_tracks(
                    pending(c0, kk),
                    stage(self.stages@, level_at_key(m0, kk)),
                    stage(self.stages@, level_at_key(m2, kk)),
                );
                assert(pending(self.change@, kk) == Some(self.change@[kk]));
            }
        }
    }
}


/// What a send hands to the level channel.
pub enum LevelUpdate {
    /// The pending stage changes with the levels they lead to.
    Level { changes: HashMap<u64, (u8, u8)>, levels: HashMap<u64, i8> },
    /// The pending stage changes with the levels they lead to, and the
    /// priority list.
    Both { changes: HashMap<u64, (u8, u8)>, levels: HashMap<u64, i8>, priority: Vec<ChunkPos> },
    /// The priority list alone.
    Priority { priority: Vec<ChunkPos> },
}

/// A copy of a level map.
fn copy_levels(m: &HashMap<u64, i8>) -> (c: HashMap<u64, i8>)
    ensures
        c@ == m@,
{
    let mut c: HashMap<u64, i8> = HashMap::new();
    let ghost s = vstd::std_specs::hash::spec_hash_map_iter(m).remaining();
    for (k, v) in it: m.iter()
        invariant
            it.seq() == s,
            forall|kk: u64| #[trigger] c@.contains_key(kk) ==> m@.contains_key(kk) && c@[kk] == m@[kk],
            forall|q: int| 0 <= q < it.index() ==> #[trigger] c@.contains_key(*s[q].0),
    {
        proof {
            vstd::std_specs::hash::axiom_spec_hash_map_iter(m);
            assert(s[it.index() as int] == (k, v));
        }
        c.insert(*k, *v);
    }
    proof {
        vstd::std_specs::hash::axiom_spec_hash_map_iter(m);
        assert forall|kk: u64| #[trigger] m@.contains_key(kk) implies c@.contains_key(kk) by {
            assert(s.contains((&kk, &m@[kk])));
            let q = choose|q: int| 0 <= q < s.len() && s[q] == (&kk, &m@[kk]);
            assert(*s[q].0 == kk);
        }
        assert(c@ =~= m@);
    }
    c
}

/// Index of the first occurrence of `p`, as a scan from the front finds it.
pub fn find_position(s: &Vec<ChunkPos>, p: ChunkPos) -> (res: Option<usize>)
    ensures
        res matches Some(i) ==> i < s.len() && s@[i as int] == p && forall|j: int| 0 <= j < i ==> s@[j] != p,
        res is None ==> !s@.contains(p),
{
    let mut i: usize = 0;
    while i < s.len()
        invariant
            i <= s.len(),
            forall|j: int| 0 <= j < i ==> s@[j] != p,
        decreases s.len() - i,
    {
        if s[i] == p {
            return Some(i);
        }
        i = i + 1;
    }
    None
}

impl ChunkLoading {
    /// A state without tickets, whose stages come from `stages`.
    pub fn new(stages: StageTable) -> (s: ChunkLoading)
        requires
            stages.wf(),
        ensures
            s.wf(),
            s.tickets().is_empty(),
            s.levels().is_empty(),
            s.changes().is_empty(),
            s.priority() == Seq::<ChunkPos>::empty(),
            s.priority_dirty(),
            s.stage_table() == stages@,
    {
        let s = ChunkLoading {
            is_priority_dirty: true,
            pos_level: HashMap::new(),
            change: HashMap::new(),
            ticket: HashMap::new(),
            high_priority: Vec::new(),
            stages,
        };
        proof {
            assert(forall|t: ChunkPos| #[trigger] ticket_levels(s.ticket@, t).len() == 0);
            assert(forall|p: ChunkPos| #[trigger] level_in(s.pos_level@, p) == MAX_LEVEL);
        }
        s
    }

    /// Whether the priority list changed since it was last sent.
    pub fn is_priority_dirty(&self) -> (b: bool)
        ensures
            b == self.priority_dirty(),
    {
        self.is_priority_dirty
    }

    /// The forced chunks, in priority order.
    pub fn high_priority(&self) -> (v: &Vec<ChunkPos>)
        ensures
            v@ == self.priority(),
    {
        &self.high_priority
    }

    /// The ticket levels held at `pos`, in the order they came.
    pub fn tickets_at(&self, pos: ChunkPos) -> (v: Vec<i8>)
        ensures
            v@ == ticket_levels(self.tickets(), pos),
    {
        let k = key_of(pos);
        let mut out: Vec<i8> = Vec::new();
        match self.ticket.get(&k) {
            Some(levels) => {
                let mut i: usize = 0;
                while i < levels.len()
                    invariant
                        i <= levels.len(),
                        out@ == levels@.take(i as int),
                    decreases levels.len() - i,
                {
                    out.push(levels[i]);
                    assert(out@ =~= levels@.take(i + 1));
                    i = i + 1;
                }
                assert(levels@.take(i as int) =~= levels@);
            },
            None => {},
        }
        out
    }

    /// The level of every loaded chunk, by position key.
    pub fn level_map(&self) -> (m: &HashMap<u64, i8>)
        ensures
            m@ == self.levels(),
    {
        &self.pos_level
    }

    /// The level of the chunk at `pos` (`MAX_LEVEL` when it is unloaded).
    pub fn level_at(&self, pos: ChunkPos) -> (l: i8)
        ensures
            l == self.level_of(pos),
    {
        let k = key_of(pos);
        match self.pos_level.get(&k) {
            Some(v) => *v,
            None => MAX_LEVEL,
        }
    }

    /// The level a client with this view distance is loaded at.
    pub fn get_level_from_view_distance(view_distance: u8) -> (l: i8)
        requires
            i8::MIN <= FULL_CHUNK_LEVEL - (view_distance as i8) <= i8::MAX,
        ensures
            l == FULL_CHUNK_LEVEL - (view_distance as i8),
    {
        FULL_CHUNK_LEVEL - (view_distance as i8)
    }

    /// The level a client with this simulation distance is ticked at.
    pub fn get_level_from_simulation_distance(simulation_distance: u8) -> (l: i8)
        requires
            i8::MIN <= FULL_CHUNK_LEVEL - (simulation_distance as i8) <= i8::MAX,
        ensures
            l == FULL_CHUNK_LEVEL - (simulation_distance as i8),
    {
        FULL_CHUNK_LEVEL - (simulation_distance as i8)
    }

    /// Takes what is due to the level channel: the pending changes with a
    /// copy of the levels when there are changes, the priority list when it
    /// changed, both at once when both are due.
    pub fn send_change(&mut self) -> (out: Option<LevelUpdate>)
        requires
            old(self).wf(),
        ensures
            final(self).wf(),
            final(self).changes().is_empty(),
            !final(self).priority_dirty(),
            final(self).levels() == old(self).levels(),
            final(self).tickets() == old(self).tickets(),
            final(self).priority() == old(self).priority(),
            final(self).stage_table() == old(self).stage_table(),
            match out {
                None => old(self).changes().is_empty() && !old(self).priority_dirty(),
                Some(LevelUpdate::Level { changes, levels }) => {
                    &&& !old(self).changes().is_empty()
                    &&& !old(self).priority_dirty()
                    &&& changes@ == old(self).changes()
                    &&& levels@ == old(self).levels()
                },
                Some(LevelUpdate::Both { changes, levels, priority }) => {
                    &&& !old(self).changes().is_empty()
                    &&& old(self).priority_dirty()
                    &&& changes@ == old(self).changes()
                    &&& levels@ == old(self).levels()
                    &&& priority@ == old(self).priority()
                },
                Some(LevelUpdate::Priority { priority }) => {
                    &&& old(self).changes().is_empty()
                    &&& old(self).priority_dirty()
                    &&& priority@ == old(self).priority()
                },
            },
    {
        let mut out: Option<LevelUpdate> = None;
        if !self.change.is_empty() {
            let mut tmp: HashMap<u64, (u8, u8)> = HashMap::new();
            std::mem::swap(&mut tmp, &mut self.change);
            let levels = copy_levels(&self.pos_level);
            if self.is_priority_dirty {
                self.is_priority_dirty = false;
                let priority = self.high_priority.clone();
                assert(priority@ =~= self.high_priority@);
                out = Some(LevelUpdate::Both { changes: tmp, levels, priority });
            } else {
                out = Some(LevelUpdate::Level { changes: tmp, levels });
            }
        }
        if self.is_priority_dirty {
            self.is_priority_dirty = false;
            let priority = self.high_priority.clone();
            assert(priority@ =~= self.high_priority@);
            out = Some(LevelUpdate::Priority { priority });
        }
        out
    }

    /// Forces the chunk at `pos`: it goes last in the priority list and gets
    /// a ticket at `FULL_CHUNK_LEVEL`.
    pub fn add_force_ticket(&mut self, pos: ChunkPos)
        requires
            old(self).wf(),
            pos_fits(pos, FULL_CHUNK_LEVEL as int),
        ensures
            final(self).wf(),
            final(self).priority() == old(self).priority().push(pos),
            final(self).priority_dirty(),
            forall|p: ChunkPos|
                #[trigger] ticket_levels(final(self).tickets(), p) == if p == pos {
                    ticket_levels(old(self).tickets(), p).push(FULL_CHUNK_LEVEL)
                } else {
                    ticket_levels(old(self).tickets(), p)
                },
            forall|p: ChunkPos|
                #[trigger] final(self).level_of(p) == min_int(
                    old(self).level_of(p),
                    contribution(pos, FULL_CHUNK_LEVEL as int, p),
                ),
            forall|k: u64|
                #[trigger] pending(final(self).changes(), k) == recorded(
                    pending(old(self).changes(), k),
                    stage(old(self).stage_table(), level_at_key(old(self).levels(), k)),
                    stage(old(self).stage_table(), level_at_key(final(self).levels(), k)),
                ),
            final(self).stage_table() == old(self).stage_table(),
    {
        self.high_priority.push(pos);
        self.is_priority_dirty = true;
        self.add_ticket(pos, FULL_CHUNK_LEVEL);
    }

    /// Releases a forced chunk: its first entry leaves the priority list and
    /// one of its tickets at `FULL_CHUNK_LEVEL` is removed.
    pub fn remove_force_ticket(&mut self, pos: ChunkPos)
        requires
            old(self).wf(),
            removal_distances_fit(old(self).tickets(), old(self).levels(), pos, FULL_CHUNK_LEVEL),
        ensures
            final(self).wf(),
            final(self).priority() == old(self).priority().remove_value(pos),
            final(self).priority_dirty(),
            forall|p: ChunkPos|
                #[trigger] ticket_levels(final(self).tickets(), p) == if p == pos {
                    ticket_levels(old(self).tickets(), p).remove_value(FULL_CHUNK_LEVEL)
                } else {
                    ticket_levels(old(self).tickets(), p)
                },
            forall|k: u64|
                #[trigger] pending(final(self).changes(), k) == recorded(
                    pending(old(self).changes(), k),
                    stage(old(self).stage_table(), level_at_key(old(self).levels(), k)),
                    stage(old(self).stage_table(), level_at_key(final(self).levels(), k)),
                ),
            final(self).stage_table() == old(self).stage_table(),
    {
        let ghost pri = self.high_priority@;
        proof {
            pri.index_of_first_ensures(pos);
        }
        match find_position(&self.high_priority, pos) {
            Some(index) => {
                assert(pri.index_of_first(pos) == Some(index as int));
                self.high_priority.remove(index);
            },
            None => {},
        }
        self.is_priority_dirty = true;
        self.remove_ticket(pos, FULL_CHUNK_LEVEL);
    }
}


/// Lowers every level in `temp` to what a ticket of level `level` at `pos`
/// asks.
fn spread_ticket(temp: &mut HashMap<u64, i8>, pos: ChunkPos, level: i8)
    requires
        0 <= level < MAX_LEVEL,
        pos_fits(pos, level as int),
        forall|kk: u64| #[trigger] old(temp)@.contains_key(kk) ==> 0 <= old(temp)@[kk] < MAX_LEVEL,
    ensures
        forall|kk: u64| #[trigger] final(temp)@.contains_key(kk) ==> 0 <= final(temp)@[kk] < MAX_LEVEL,
        forall|p: ChunkPos|
            #[trigger] level_in(final(temp)@, p) == min_int(level_in(old(temp)@, p), contribution(pos, level as int, p)),
{
    let ghost m0 = temp@;
    let max_range: u8 = (MAX_LEVEL - level - 1) as u8;
    let mut r: u8 = 0;
    while r <= max_range
        invariant
            0 <= level < MAX_LEVEL,
            max_range == MAX_LEVEL - 1 - level,
            0 <= r <= max_range + 1,
            pos_fits(pos, level as int),
            forall|kk: u64| #[trigger] m0.contains_key(kk) ==> 0 <= m0[kk] < MAX_LEVEL,
            forall|kk: u64| #[trigger] temp@.contains_key(kk) ==> 0 <= temp@[kk] < MAX_LEVEL,
            forall|kk: u64|
                #[trigger] level_at_key(temp@, kk) == spread_level(m0, pos, level as int, r as int, 0, kk),
        decreases max_range + 1 - r,
    {
        let ring = get_chebyshev_ring(r);
        assert(crate::chunk_view_lut::clamp_radius(r as int) == r);
        assert(forall|i: int| 0 <= i < ring.len() ==> #[trigger] offset_is(ring@[i], ring_offset(r as int, i)));
        let ring_level: i8 = level + r as i8;
        let mut j: usize = 0;
        while j < ring.len()
            invariant
                0 <= level < MAX_LEVEL,
                max_range == MAX_LEVEL - 1 - level,
                0 <= r <= max_range,
                ring_level == level + r,
                pos_fits(pos, level as int),
                ring.len() == ring_len(r as int),
                forall|i: int| 0 <= i < ring.len() ==> #[trigger] offset_is(ring@[i], ring_offset(r as int, i)),
                0 <= j <= ring.len(),
                forall|kk: u64| #[trigger] m0.contains_key(kk) ==> 0 <= m0[kk] < MAX_LEVEL,
                forall|kk: u64| #[trigger] temp@.contains_key(kk) ==> 0 <= temp@[kk] < MAX_LEVEL,
                forall|kk: u64|
                    #[trigger] level_at_key(temp@, kk) == spread_level(m0, pos, level as int, r as int, j as int, kk),
            decreases ring.len() - j,
        {
            let (dx, dy) = ring[j];
            proof {
                assert(offset_is(ring@[j as int], ring_offset(r as int, j as int)));
                lemma_ring_offset(r as int, j as int);
            }
            let p = pos.add_raw(dx as i32, dy as i32);
            let pk = key_of(p);
            let ghost m_before = temp@;
            proof {
                assert(key_pos(pk) == p);
                assert(dist(p, pos) == r);
                assert(ring_index(r as int, p.x - pos.x, p.y - pos.y) == j);
                assert(level_at_key(m_before, pk) == level_at_key(m0, pk));
            }
            let cur = match temp.get(&pk) {
                Some(v) => *v,
                None => MAX_LEVEL,
            };
            if cur > ring_level {
                temp.insert(pk, ring_level);
            }
            proof {
                assert forall|kk: u64|
                    #[trigger] level_at_key(temp@, kk) == spread_level(m0, pos, level as int, r as int, j + 1, kk) by {
                    if kk != pk {
                        let q = key_pos(kk);
                        if dist(q, pos) == r {
                            lemma_ring_index(r as int, q.x - pos.x, q.y - pos.y);
                            if ring_index(r as int, q.x - pos.x, q.y - pos.y) == j {
                                assert(q == p);
                            }
                        }
                        assert(level_at_key(temp@, kk) == level_at_key(m_before, kk));
                    }
                }
            }
            j = j + 1;
        }
        proof {
            assert forall|kk: u64|
                #[trigger] level_at_key(temp@, kk) == spread_level(m0, pos, level as int, r + 1, 0, kk) by {
                let q = key_pos(kk);
                if dist(q, pos) == r {
                    lemma_ring_index(r as int, q.x - pos.x, q.y - pos.y);
                }
                assert(level_at_key(temp@, kk) == spread_level(m0, pos, level as int, r as int, j as int, kk));
            }
        }
        r = r + 1;
    }
    proof {
        assert forall|p: ChunkPos| #[trigger] level_in(temp@, p) == min_int(level_in(m0, p), contribution(pos, level as int, p)) by {
            assert(level_at_key(temp@, pos_key(p)) == spread_level(m0, pos, level as int, r as int, 0, pos_key(p)));
        }
    }
}

/// The level map holds the entry `e`.
spec fn holds_entry(m: Map<u64, i8>, e: (&u64, &i8)) -> bool {
    m.contains_key(*e.0) && m[*e.0] == *e.1
}

/// Whether two level maps hold the same entries.
fn same_levels(a: &HashMap<u64, i8>, b: &HashMap<u64, i8>) -> (same: bool)
    ensures
        same == (a@ == b@),
{
    let ghost s = vstd::std_specs::hash::spec_hash_map_iter(a).remaining();
    for (k, v) in it: a.iter()
        invariant
            it.seq() == s,
            forall|q: int| 0 <= q < it.index() ==> holds_entry(b@, #[trigger] s[q]),
    {
        proof {
            vstd::std_specs::hash::axiom_spec_hash_map_iter(a);
            assert(s[it.index() as int] == (k, v));
        }
        match b.get(k) {
            Some(w) => {
                if *w != *v {
                    proof {
                        assert(a@[*k] == *v);
                    }
                    return false;
                }
            },
            None => {
                return false;
            },
        }
        assert(holds_entry(b@, s[it.index() as int]));
    }
    let ghost s2 = vstd::std_specs::hash::spec_hash_map_iter(b).remaining();
    for (k, v) in it: b.iter()
        invariant
            it.seq() == s2,
            forall|q: int| 0 <= q < it.index() ==> #[trigger] a@.contains_key(*s2[q].0),
    {
        proof {
            vstd::std_specs::hash::axiom_spec_hash_map_iter(b);
            assert(s2[it.index() as int] == (k, v));
        }
        if !a.contains_key(k) {
            proof {
                assert(b@.contains_key(*k));
            }
            return false;
        }
    }
    proof {
        vstd::std_specs::hash::axiom_spec_hash_map_iter(a);
        vstd::std_specs::hash::axiom_spec_hash_map_iter(b);
        assert forall|kk: u64| #[trigger] a@.contains_key(kk) implies b@.contains_key(kk) && b@[kk] == a@[kk] by {
            assert(s.contains((&kk, &a@[kk])));
            let q = choose|q: int| 0 <= q < s.len() && s[q] == (&kk, &a@[kk]);
            assert(*s[q].0 == kk);
            assert(holds_entry(b@, s[q]));
        }
        assert forall|kk: u64| #[trigger] b@.contains_key(kk) implies a@.contains_key(kk) by {
            assert(s2.contains((&kk, &b@[kk])));
            let q = choose|q: int| 0 <= q < s2.len() && s2[q] == (&kk, &b@[kk]);
            assert(*s2[q].0 == kk);
        }
        assert(a@ =~= b@);
    }
    true
}

impl ChunkLoading {
    /// Checks the held levels against the tickets. In a well-formed state
    /// they always agree, so the check always succeeds; a state where they
    /// disagree is outside this function's domain (`levels_match_tickets`
    /// gives the comparison itself).
    pub fn debug_check_error(&self) -> (ok: bool)
        requires
            self.wf(),
        ensures
            ok,
    {
        self.levels_match_tickets()
    }

    /// Recomputes the level of every chunk from the tickets alone and tells
    /// whether the held levels agree with it.
    pub fn levels_match_tickets(&self) -> (ok: bool)
        requires
            tickets_valid(self.tickets()),
            forall|kk: u64| #[trigger] self.levels().contains_key(kk) ==> 0 <= self.levels()[kk] < MAX_LEVEL,
        ensures
            ok == levels_from_tickets(self.tickets(), self.levels()),
    {
        let ghost tk = self.ticket@;
        let mut temp: HashMap<u64, i8> = HashMap::new();
        let ghost mut done: Map<u64, Vec<i8>> = Map::empty();
        proof {
            assert(forall|t: ChunkPos| #[trigger] ticket_levels(done, t).len() == 0);
            assert(forall|p: ChunkPos| #[trigger] level_in(temp@, p) == MAX_LEVEL);
        }
        let ghost s = vstd::std_specs::hash::spec_hash_map_iter(&self.ticket).remaining();
        for (k, levels) in it: self.ticket.iter()
            invariant
                it.seq() == s,
                tk == self.ticket@,
                tickets_valid(tk),
                levels_from_tickets(done, temp@),
                forall|kk: u64| #[trigger] temp@.contains_key(kk) ==> 0 <= temp@[kk] < MAX_LEVEL,
                forall|kk: u64| #[trigger] done.contains_key(kk) ==> tk.contains_key(kk) && done[kk] == tk[kk],
                forall|q: int| 0 <= q < it.index() ==> #[trigger] done.contains_key(*s[q].0),
        {
            proof {
                vstd::std_specs::hash::axiom_spec_hash_map_iter(&self.ticket);
                assert(s[it.index() as int] == (k, levels));
                assert(tk.contains_key(*k));
                assert(tk[*k] == *levels);
            }
            let t = pos_of(*k);
            let lowest = lowest_level(levels);
            proof {
                let i = choose|i: int| 0 <= i < levels@.len() && levels@[i] == lowest;
                assert(pos_fits(key_pos(*k), tk[*k]@[i] as int));
            }
            let ghost temp_before = temp@;
            spread_ticket(&mut temp, t, lowest);
            proof {
                lemma_take_in_ticket(done, temp_before, temp@, t, *levels, lowest);
                done = done.insert(*k, *levels);
            }
        }
        proof {
            vstd::std_specs::hash::axiom_spec_hash_map_iter(&self.ticket);
            assert forall|kk: u64| #[trigger] tk.contains_key(kk) implies done.contains_key(kk) by {
                assert(s.contains((&kk, &tk[kk])));
                let q = choose|q: int| 0 <= q < s.len() && s[q] == (&kk, &tk[kk]);
                assert(*s[q].0 == kk);
            }
            assert(done =~= tk);
            if levels_from_tickets(tk, self.pos_level@) {
                assert(forall|t: ChunkPos, l: i8| #[trigger] ticket_levels(tk, t).contains(l) <==> #[trigger] ticket_levels(tk, t).contains(l));
                lemma_levels_unique(tk, temp@, tk, self.pos_level@);
            }
        }
        same_levels(&temp, &self.pos_level)
    }
}


impl ChunkLoading {
    /// The levels of the chunks from column `sx` to `tx` and row `sy` to
    /// `ty` (both inclusive), one row per `x`, as the level dump shows them.
    pub fn dump_level_debug(map: &HashMap<u64, i8>, sx: i32, tx: i32, sy: i32, ty: i32) -> (rows: Vec<Vec<i8>>)
        ensures
            rows.len() == if sx <= tx { tx - sx + 1 } else { 0 },
            forall|i: int|
                0 <= i < rows.len() ==> (#[trigger] rows@[i]).len() == if sy <= ty { ty - sy + 1 } else { 0 },
            forall|i: int, j: int|
                0 <= i < rows.len() && 0 <= j < rows@[i].len() ==> #[trigger] rows@[i]@[j] == level_in(
                    map@,
                    ChunkPos { x: (sx + i) as i32, y: (sy + j) as i32 },
                ),
    {
        let mut rows: Vec<Vec<i8>> = Vec::new();
        let mut x: i64 = sx as i64;
        while x <= tx as i64
            invariant
                sx <= x <= tx as int + 1 || (x == sx && sx > tx),
                rows.len() == x - sx,
                forall|i: int|
                    0 <= i < rows.len() ==> (#[trigger] rows@[i]).len() == if sy <= ty { ty - sy + 1 } else { 0 },
                forall|i: int, j: int|
                    0 <= i < rows.len() && 0 <= j < rows@[i].len() ==> #[trigger] rows@[i]@[j] == level_in(
                        map@,
                        ChunkPos { x: (sx + i) as i32, y: (sy + j) as i32 },
                    ),
            decreases tx - x + 1,
        {
            let mut row: Vec<i8> = Vec::new();
            let mut y: i64 = sy as i64;
            while y <= ty as i64
                invariant
                    sx <= x <= tx,
                    sy <= y <= ty as int + 1 || (y == sy && sy > ty),
                    row.len() == y - sy,
                    forall|j: int|
                        0 <= j < row.len() ==> #[trigger] row@[j] == level_in(
                            map@,
                            ChunkPos { x: x as i32, y: (sy + j) as i32 },
                        ),
                decreases ty - y + 1,
            {
                let p = ChunkPos { x: x as i32, y: y as i32 };
                let k = key_of(p);
                let level = match map.get(&k) {
                    Some(v) => *v,
                    None => MAX_LEVEL,
                };
                row.push(level);
                y = y + 1;
            }
            let ghost before = rows@;
            rows.push(row);
            proof {
                assert forall|i: int, j: int|
                    0 <= i < rows.len() && 0 <= j < rows@[i].len() implies #[trigger] rows@[i]@[j] == level_in(
                        map@,
                        ChunkPos { x: (sx + i) as i32, y: (sy + j) as i32 },
                    ) by {
                    if i < before.len() {
                        assert(rows@[i] == before[i]);
                    }
                }
            }
            x = x + 1;
        }
        rows
    }
}

} // verus!
