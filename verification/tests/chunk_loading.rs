use pumpkin_world::chunk_loading::{
    ChunkLoading, LevelUpdate, StageTable, FULL_CHUNK_LEVEL, MAX_LEVEL,
};
use pumpkin_world::chunk_pos::{pos_of, ChunkPos};

/// Stage of a level: 9 up to the full level, one less per level above it,
/// 0 from `MAX_LEVEL` on.
fn stage_of(level: i32) -> u8 {
    if level <= FULL_CHUNK_LEVEL as i32 {
        9
    } else if level >= MAX_LEVEL as i32 {
        0
    } else {
        (9 - (level - FULL_CHUNK_LEVEL as i32)) as u8
    }
}

fn stages() -> StageTable {
    let table: Vec<u8> = (-128..128).map(stage_of).collect();
    StageTable::new(table).expect("256 entries")
}

fn loading() -> ChunkLoading {
    ChunkLoading::new(stages())
}

fn grid_text(a: &ChunkLoading, sx: i32, tx: i32, sy: i32, ty: i32) -> String {
    let mut header = "X/Y".to_string();
    for y in sy..=ty {
        header.push_str(&format!("{y:4}"));
    }
    let grid: String = (sx..=tx)
        .map(|x| {
            let mut row = format!("{x:3}");
            for y in sy..=ty {
                let level = a.level_at(ChunkPos::new(x, y));
                row.push_str(&format!("{level:4}"));
            }
            row
        })
        .collect::<Vec<_>>()
        .join("\n");
    format!("\nloading level:\n{header}\n{grid}")
}

#[test]
fn test() {
    let mut a = loading();

    a.add_ticket(ChunkPos::new(0, 0), 44);
    a.add_ticket(ChunkPos::new(0, 1), 44);
    a.remove_ticket(ChunkPos::new(0, 0), 44);

    a.add_ticket(ChunkPos::new(0, 0), 30);
    a.add_ticket(ChunkPos::new(0, 10), 25);
    a.add_ticket(ChunkPos::new(10, 10), 26);
    a.add_ticket(ChunkPos::new(10, 10), 26);
    a.remove_ticket(ChunkPos::new(0, 0), 30);
    a.remove_ticket(ChunkPos::new(0, 10), 25);
    a.remove_ticket(ChunkPos::new(10, 10), 26);
    a.remove_ticket(ChunkPos::new(10, 10), 26);
    a.add_ticket(ChunkPos::new(-72, 457), 24);
    a.add_ticket(ChunkPos::new(-72, 455), 33);
    a.add_ticket(ChunkPos::new(-72, 456), 24);
    a.remove_ticket(ChunkPos::new(-72, 457), 24);
    a.add_ticket(ChunkPos::new(-72, 455), 24);

    a.add_ticket(ChunkPos::new(-59, 495), 33);
    a.add_ticket(ChunkPos::new(-51, 504), 24);

    a.remove_ticket(ChunkPos::new(-51, 504), 24);

    let sx = -59;
    let tx = -51;
    let sy = 495;
    let ty = 504;
    println!("{}", grid_text(&a, sx, tx, sy, ty));
}

#[test]
fn levels_match_tickets_after_every_operation() {
    let mut a = loading();
    let ops: Vec<(bool, i32, i32, i8)> = vec![
        (true, 0, 0, 44),
        (true, 0, 1, 44),
        (false, 0, 0, 44),
        (true, 0, 0, 30),
        (true, 3, 2, 20),
        (false, 0, 0, 30),
        (true, 3, 2, 20),
        (false, 3, 2, 20),
        (true, -5, 7, 0),
        (false, -5, 7, 0),
    ];
    for (add, x, y, level) in ops {
        if add {
            a.add_ticket(ChunkPos::new(x, y), level);
        } else {
            a.remove_ticket(ChunkPos::new(x, y), level);
        }
        assert!(a.debug_check_error());
    }
}

#[test]
fn single_ticket_levels_grow_with_distance() {
    let mut a = loading();
    a.add_ticket(ChunkPos::new(0, 0), 40);
    assert_eq!(a.level_at(ChunkPos::new(0, 0)), 40);
    assert_eq!(a.level_at(ChunkPos::new(1, -1)), 41);
    assert_eq!(a.level_at(ChunkPos::new(-3, 2)), 43);
    assert_eq!(a.level_at(ChunkPos::new(8, 0)), 48);
    assert_eq!(a.level_at(ChunkPos::new(9, 0)), MAX_LEVEL);
    assert_eq!(a.level_at(ChunkPos::new(100, 100)), MAX_LEVEL);
}

#[test]
fn lowest_ticket_wins_and_removal_restores() {
    let mut a = loading();
    a.add_ticket(ChunkPos::new(0, 0), 40);
    a.add_ticket(ChunkPos::new(4, 0), 38);
    assert_eq!(a.level_at(ChunkPos::new(2, 0)), 40);
    assert_eq!(a.level_at(ChunkPos::new(0, 0)), 40);
    assert_eq!(a.level_at(ChunkPos::new(1, 0)), 41);
    assert_eq!(a.level_at(ChunkPos::new(3, 0)), 39);
    a.remove_ticket(ChunkPos::new(4, 0), 38);
    assert_eq!(a.level_at(ChunkPos::new(3, 0)), 43);
    assert_eq!(a.level_at(ChunkPos::new(12, 0)), MAX_LEVEL);
    assert!(a.debug_check_error());
}

#[test]
fn remove_undoes_add() {
    let mut a = loading();
    a.add_ticket(ChunkPos::new(2, 2), 35);
    a.add_ticket(ChunkPos::new(-4, 1), 30);
    let _ = a.send_change();
    let before: Vec<Vec<i8>> = ChunkLoading::dump_level_debug(a.level_map(), -30, 30, -30, 30);
    a.add_ticket(ChunkPos::new(5, -3), 28);
    a.remove_ticket(ChunkPos::new(5, -3), 28);
    let after: Vec<Vec<i8>> = ChunkLoading::dump_level_debug(a.level_map(), -30, 30, -30, 30);
    assert_eq!(before, after);
    // every change of the add was cancelled by the remove
    match a.send_change() {
        None => {}
        Some(_) => panic!("changes left after remove undid add"),
    }
}

#[test]
fn removing_a_missing_ticket_changes_nothing() {
    let mut a = loading();
    a.add_ticket(ChunkPos::new(0, 0), 40);
    a.remove_ticket(ChunkPos::new(0, 0), 41);
    a.remove_ticket(ChunkPos::new(1, 0), 40);
    assert_eq!(a.level_at(ChunkPos::new(0, 0)), 40);
    assert!(a.debug_check_error());
}

#[test]
fn send_change_reports_stage_changes_and_priority() {
    let mut a = loading();
    // a fresh state has its (empty) priority list pending
    match a.send_change() {
        Some(LevelUpdate::Priority { priority }) => assert!(priority.is_empty()),
        _ => panic!("expected the priority list"),
    }
    assert!(a.send_change().is_none());
    a.add_ticket(ChunkPos::new(0, 0), 47);
    match a.send_change() {
        Some(LevelUpdate::Level { changes, levels }) => {
            assert_eq!(changes.len(), 9);
            for (k, (from, to)) in changes.iter() {
                let p = pos_of(*k);
                assert_eq!(*from, 0);
                assert_eq!(*to, stage_of(a.level_at(p) as i32));
            }
            assert_eq!(levels.len(), 9);
        }
        _ => panic!("expected level changes"),
    }
    a.add_force_ticket(ChunkPos::new(0, 0));
    match a.send_change() {
        Some(LevelUpdate::Both { changes, levels, priority }) => {
            assert!(!changes.is_empty());
            assert_eq!(priority, vec![ChunkPos::new(0, 0)]);
            assert!(levels.len() > 9);
        }
        _ => panic!("expected both"),
    }
    a.remove_force_ticket(ChunkPos::new(0, 0));
    match a.send_change() {
        Some(LevelUpdate::Both { priority, .. }) => assert!(priority.is_empty()),
        _ => panic!("expected both"),
    }
    assert_eq!(a.level_at(ChunkPos::new(0, 0)), 47);
}

#[test]
fn force_ticket_is_full_level() {
    let mut a = loading();
    a.add_force_ticket(ChunkPos::new(3, 3));
    assert_eq!(a.level_at(ChunkPos::new(3, 3)), FULL_CHUNK_LEVEL);
    assert_eq!(a.level_at(ChunkPos::new(3, 8)), 48);
    a.remove_force_ticket(ChunkPos::new(3, 3));
    assert_eq!(a.level_at(ChunkPos::new(3, 3)), MAX_LEVEL);
}

#[test]
fn view_and_simulation_distance_levels() {
    assert_eq!(ChunkLoading::get_level_from_view_distance(10), 33);
    assert_eq!(ChunkLoading::get_level_from_view_distance(0), 43);
    assert_eq!(ChunkLoading::get_level_from_simulation_distance(32), 11);
    assert_eq!(ChunkLoading::get_level_from_simulation_distance(200), 99);
}

#[test]
fn dump_grid_shape() {
    let mut a = loading();
    a.add_ticket(ChunkPos::new(0, 0), 46);
    let rows = ChunkLoading::dump_level_debug(a.level_map(), -1, 1, 0, 3);
    assert_eq!(rows, vec![vec![47, 47, 48, 49], vec![46, 47, 48, 49], vec![47, 47, 48, 49]]);
    let empty = ChunkLoading::dump_level_debug(a.level_map(), 2, 1, 0, 3);
    assert!(empty.is_empty());
}

#[test]
fn stage_table_needs_every_level() {
    assert!(StageTable::new(vec![0; 255]).is_none());
    let t = StageTable::new(vec![3; 256]).expect("256 entries");
    assert_eq!(t.level_to_stage(-128), 3);
}

#[test]
fn tickets_keep_their_order_and_lose_the_first_match() {
    let mut a = loading();
    let p = ChunkPos::new(7, -7);
    a.add_ticket(p, 40);
    a.add_ticket(p, 30);
    a.add_ticket(p, 40);
    assert_eq!(a.tickets_at(p), vec![40, 30, 40]);
    a.remove_ticket(p, 40);
    assert_eq!(a.tickets_at(p), vec![30, 40]);
    a.remove_ticket(p, 30);
    a.remove_ticket(p, 40);
    assert!(a.tickets_at(p).is_empty());
    assert_eq!(a.level_at(p), MAX_LEVEL);
}

#[test]
fn force_tickets_keep_priority_order() {
    let mut a = loading();
    let _ = a.send_change();
    assert!(!a.is_priority_dirty());
    a.add_force_ticket(ChunkPos::new(1, 1));
    a.add_force_ticket(ChunkPos::new(2, 2));
    a.add_force_ticket(ChunkPos::new(1, 1));
    assert!(a.is_priority_dirty());
    a.remove_force_ticket(ChunkPos::new(1, 1));
    assert_eq!(a.high_priority(), &vec![ChunkPos::new(2, 2), ChunkPos::new(1, 1)]);
    assert_eq!(a.level_at(ChunkPos::new(1, 1)), FULL_CHUNK_LEVEL);
}

#[test]
fn levels_do_not_depend_on_ticket_order() {
    let tickets = [(0, 0, 40i8), (6, -2, 35), (-3, 9, 44), (6, -2, 41), (1, 1, 47)];
    let mut a = loading();
    for &(x, y, l) in tickets.iter() {
        a.add_ticket(ChunkPos::new(x, y), l);
    }
    let mut b = loading();
    for &(x, y, l) in tickets.iter().rev() {
        b.add_ticket(ChunkPos::new(x, y), l);
    }
    let ga = ChunkLoading::dump_level_debug(a.level_map(), -20, 20, -20, 20);
    let gb = ChunkLoading::dump_level_debug(b.level_map(), -20, 20, -20, 20);
    assert_eq!(ga, gb);
    assert_eq!(a.level_map(), b.level_map());
}

fn level_changes(a: &mut ChunkLoading) -> Vec<(u64, (u8, u8))> {
    let mut v: Vec<(u64, (u8, u8))> = match a.send_change() {
        Some(LevelUpdate::Level { changes, .. }) | Some(LevelUpdate::Both { changes, .. }) => {
            changes.into_iter().collect()
        }
        _ => Vec::new(),
    };
    v.sort();
    v
}

#[test]
fn two_tickets_commute() {
    let mut a = loading();
    let mut b = loading();
    let _ = a.send_change();
    let _ = b.send_change();
    a.add_ticket(ChunkPos::new(0, 0), 44);
    a.add_ticket(ChunkPos::new(3, 1), 42);
    b.add_ticket(ChunkPos::new(3, 1), 42);
    b.add_ticket(ChunkPos::new(0, 0), 44);
    assert_eq!(
        ChunkLoading::dump_level_debug(a.level_map(), -15, 15, -15, 15),
        ChunkLoading::dump_level_debug(b.level_map(), -15, 15, -15, 15)
    );
    let ca = level_changes(&mut a);
    let cb = level_changes(&mut b);
    assert!(!ca.is_empty());
    assert_eq!(ca, cb);
}

#[test]
fn changes_are_relative_to_the_last_send() {
    let mut a = loading();
    a.add_ticket(ChunkPos::new(0, 0), 45);
    let _ = a.send_change();
    // lower, then raise back: nothing left to report
    a.add_ticket(ChunkPos::new(0, 0), 44);
    a.remove_ticket(ChunkPos::new(0, 0), 44);
    assert!(level_changes(&mut a).is_empty());
    // lower twice: one change from the sent stage to the last one
    a.add_ticket(ChunkPos::new(0, 0), 44);
    a.add_ticket(ChunkPos::new(0, 0), 43);
    let c = level_changes(&mut a);
    let origin = c.iter().find(|(k, _)| pos_of(*k) == ChunkPos::new(0, 0)).expect("origin changed");
    assert_eq!(origin.1, (stage_of(45), stage_of(43)));
}

#[test]
fn levels_match_tickets_is_true_on_every_state() {
    let mut a = loading();
    assert!(a.levels_match_tickets());
    a.add_ticket(ChunkPos::new(7, -2), 30);
    a.add_force_ticket(ChunkPos::new(-3, 3));
    assert!(a.levels_match_tickets());
    assert!(a.debug_check_error());
}
