use pumpkin_world::block_pos::{BlockDirection, BlockPos};
use pumpkin_world::client_tick_end::JavaClient;
use pumpkin_world::detector_rail::{
    any_minecart, is_minecart, update_power_to_connected, DetectorRailBlock, EntityKind,
    PressedUpdate, RailShapeStraight,
};

#[test]
fn minecarts_are_detected() {
    assert!(is_minecart(&EntityKind::Minecart));
    assert!(is_minecart(&EntityKind::TntMinecart));
    assert!(!is_minecart(&EntityKind::Other));
    assert!(any_minecart(&vec![EntityKind::Other, EntityKind::HopperMinecart]));
    assert!(!any_minecart(&vec![EntityKind::Other]));
    assert!(!any_minecart(&vec![]));
}

#[test]
fn pressed_transitions() {
    assert_eq!(
        DetectorRailBlock::check_pressed(true, true, false),
        PressedUpdate { set_powered: Some(true), schedule_tick: true }
    );
    assert_eq!(
        DetectorRailBlock::check_pressed(true, false, true),
        PressedUpdate { set_powered: Some(false), schedule_tick: false }
    );
    assert_eq!(
        DetectorRailBlock::check_pressed(true, true, true),
        PressedUpdate { set_powered: None, schedule_tick: true }
    );
    assert_eq!(
        DetectorRailBlock::check_pressed(false, true, false),
        PressedUpdate { set_powered: None, schedule_tick: false }
    );
}

#[test]
fn redstone_outputs() {
    assert_eq!(DetectorRailBlock::get_weak_redstone_power(true), 15);
    assert_eq!(DetectorRailBlock::get_weak_redstone_power(false), 0);
    assert_eq!(DetectorRailBlock::get_strong_redstone_power(true, BlockDirection::Up), 15);
    assert_eq!(DetectorRailBlock::get_strong_redstone_power(true, BlockDirection::Down), 0);
    assert_eq!(DetectorRailBlock::get_comparator_output(true), Some(0));
    assert_eq!(DetectorRailBlock::get_comparator_output(false), None);
    assert!(DetectorRailBlock::emits_redstone_power());
    assert!(DetectorRailBlock::on_entity_collision(false));
    assert!(!DetectorRailBlock::on_scheduled_tick(false));
    assert!(DetectorRailBlock::on_state_replaced(false, true));
    assert!(!DetectorRailBlock::on_state_replaced(true, true));
}

#[test]
fn connected_rails() {
    let p = BlockPos::new(5, 64, 5);
    assert_eq!(
        update_power_to_connected(&p, RailShapeStraight::NorthSouth),
        (BlockPos::new(5, 64, 4), BlockPos::new(5, 64, 6))
    );
    assert_eq!(
        update_power_to_connected(&p, RailShapeStraight::AscendingEast),
        (BlockPos::new(4, 64, 5), BlockPos::new(6, 65, 5))
    );
    assert_eq!(
        update_power_to_connected(&p, RailShapeStraight::AscendingSouth),
        (BlockPos::new(5, 64, 4), BlockPos::new(5, 65, 6))
    );
}

#[test]
fn tick_end_zeroes_movement_without_packets() {
    let mut c = JavaClient::new();
    assert!(c.handle_client_tick_end());
    c.mark_movement_received();
    assert!(!c.handle_client_tick_end());
    assert!(c.handle_client_tick_end());
}
