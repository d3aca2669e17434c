//! Detector rail: powered while a minecart stands on it.

use vstd::prelude::*;
use crate::block_pos::{block_pos_fits, neighbour, shifted, BlockDirection, BlockPos};

verus! {

/// The kinds of entity that matter to a detector rail.
#[derive(Clone, Copy, PartialEq, Eq, Structural, Debug, Hash)]
pub enum EntityKind {
    Minecart,
    ChestMinecart,
    CommandBlockMinecart,
    FurnaceMinecart,
    HopperMinecart,
    SpawnerMinecart,
    TntMinecart,
    /// Any other entity.
    Other,
}

/// The straight shapes a rail can take.
#[derive(Clone, Copy, PartialEq, Eq, Structural, Debug, Hash)]
pub enum RailShapeStraight {
    NorthSouth,
    EastWest,
    AscendingEast,
    AscendingWest,
    AscendingNorth,
    AscendingSouth,
}

pub open spec fn spec_is_minecart(e: EntityKind) -> bool {
    !(e is Other)
}

/// Whether an entity is one of the seven minecarts.
pub fn is_minecart(entity_type: &EntityKind) -> (b: bool)
    ensures
        b == spec_is_minecart(*entity_type),
{
    *entity_type == EntityKind::Minecart || *entity_type == EntityKind::ChestMinecart || *entity_type
        == EntityKind::CommandBlockMinecart || *entity_type == EntityKind::FurnaceMinecart || *entity_type
        == EntityKind::HopperMinecart || *entity_type == EntityKind::SpawnerMinecart || *entity_type
        == EntityKind::TntMinecart
}

/// Whether any of the entities is a minecart.
pub fn any_minecart(entities: &Vec<EntityKind>) -> (b: bool)
    ensures
        b == exists|i: int| 0 <= i < entities.len() && spec_is_minecart(#[trigger] entities@[i]),
{
    let mut i: usize = 0;
    while i < entities.len()
        invariant
            i <= entities.len(),
            forall|j: int| 0 <= j < i ==> !spec_is_minecart(#[trigger] entities@[j]),
        decreases entities.len() - i,
    {
        if is_minecart(&entities[i]) {
            return true;
        }
        i = i + 1;
    }
    false
}

/// The two positions a rail of this shape connects to.
pub open spec fn spec_connected(pos: BlockPos, shape: RailShapeStraight) -> (BlockPos, BlockPos) {
    match shape {
        RailShapeStraight::NorthSouth => (shifted(pos, 0, 0, -1), shifted(pos, 0, 0, 1)),
        RailShapeStraight::EastWest => (shifted(pos, 1, 0, 0), shifted(pos, -1, 0, 0)),
        RailShapeStraight::AscendingEast => (shifted(pos, -1, 0, 0), shifted(pos, 1, 1, 0)),
        RailShapeStraight::AscendingWest => (shifted(pos, 1, 0, 0), shifted(pos, -1, 1, 0)),
        RailShapeStraight::AscendingNorth => (shifted(pos, 0, 0, 1), shifted(pos, 0, 1, -1)),
        RailShapeStraight::AscendingSouth => (shifted(pos, 0, 0, -1), shifted(pos, 0, 1, 1)),
    }
}

/// The two positions whose neighbours a rail of this shape updates when its
/// power changes.
pub fn update_power_to_connected(pos: &BlockPos, shape: RailShapeStraight) -> (c: (BlockPos, BlockPos))
    requires
        block_pos_fits(*pos, 1),
    ensures
        c == spec_connected(*pos, shape),
{
    match shape {
        RailShapeStraight::NorthSouth => (pos.north(), pos.south()),
        RailShapeStraight::EastWest => (pos.east(), pos.west()),
        RailShapeStraight::AscendingEast => (pos.west(), pos.east().up()),
        RailShapeStraight::AscendingWest => (pos.east(), pos.west().up()),
        RailShapeStraight::AscendingNorth => (pos.south(), pos.north().up()),
        RailShapeStraight::AscendingSouth => (pos.north(), pos.south().up()),
    }
}

/// The direction an ascending rail rises towards; none for a flat rail.
pub open spec fn rising_towards(shape: RailShapeStraight) -> Option<BlockDirection> {
    match shape {
        RailShapeStraight::AscendingEast => Some(BlockDirection::East),
        RailShapeStraight::AscendingWest => Some(BlockDirection::West),
        RailShapeStraight::AscendingNorth => Some(BlockDirection::North),
        RailShapeStraight::AscendingSouth => Some(BlockDirection::South),
        _ => None,
    }
}

/// A rail connects two positions on opposite sides of it, one horizontal
/// step away each: along z for a north-south rail, along x for an
/// east-west one. The first is at the rail's height; the second is too
/// for a flat rail, and for an ascending rail it is the one in the
/// direction it rises, one block up.
pub proof fn lemma_connected_ends(pos: BlockPos, shape: RailShapeStraight)
    requires
        block_pos_fits(pos, 1),
    ensures
        spec_connected(pos, shape).0.x - pos.x == -(spec_connected(pos, shape).1.x - pos.x),
        spec_connected(pos, shape).0.z - pos.z == -(spec_connected(pos, shape).1.z - pos.z),
        spec_connected(pos, shape).0.y == pos.y,
        shape == RailShapeStraight::NorthSouth ==> spec_connected(pos, shape).0.x == pos.x && spec_connected(
            pos,
            shape,
        ).0.z != pos.z && spec_connected(pos, shape).1.y == pos.y,
        shape == RailShapeStraight::EastWest ==> spec_connected(pos, shape).0.z == pos.z && spec_connected(
            pos,
            shape,
        ).0.x != pos.x && spec_connected(pos, shape).1.y == pos.y,
        rising_towards(shape) matches Some(d) ==> spec_connected(pos, shape).1 == shifted(
            neighbour(pos, d),
            0,
            1,
            0,
        ),
        -1 <= spec_connected(pos, shape).0.x - pos.x <= 1,
        -1 <= spec_connected(pos, shape).0.z - pos.z <= 1,
        (spec_connected(pos, shape).0.x - pos.x == 0) != (spec_connected(pos, shape).0.z - pos.z == 0),
{
}

/// What a check of a detector rail does to the world.
#[derive(Clone, Copy, PartialEq, Eq, Structural, Debug)]
pub struct PressedUpdate {
    /// The new `powered` value to store, when it changes; the rail then
    /// updates its connected rails, itself and the block below.
    pub set_powered: Option<bool>,
    /// Whether to check again in 20 ticks.
    pub schedule_tick: bool,
}

/// A detector rail block.
pub struct DetectorRailBlock;

impl DetectorRailBlock {
    /// Decides a check of the rail: it powers up when a minecart arrives,
    /// powers down when the last one left, and keeps checking while one is
    /// on it. Nothing happens when the rail cannot stand where it is.
    pub fn check_pressed(can_place: bool, has_minecart: bool, was_pressed: bool) -> (u: PressedUpdate)
        ensures
            !can_place ==> u == (PressedUpdate { set_powered: None, schedule_tick: false }),
            can_place ==> u.set_powered == if has_minecart != was_pressed {
                Some(has_minecart)
            } else {
                None
            },
            can_place ==> u.schedule_tick == has_minecart,
    {
        if !can_place {
            return PressedUpdate { set_powered: None, schedule_tick: false };
        }
        let mut set_powered: Option<bool> = None;
        if has_minecart && !was_pressed {
            set_powered = Some(true);
        } else if !has_minecart && was_pressed {
            set_powered = Some(false);
        }
        PressedUpdate { set_powered, schedule_tick: has_minecart }
    }

    /// A colliding entity makes an unpowered rail check itself.
    pub fn on_entity_collision(powered: bool) -> (check: bool)
        ensures
            check == !powered,
    {
        !powered
    }

    /// A scheduled tick makes a powered rail check itself.
    pub fn on_scheduled_tick(powered: bool) -> (check: bool)
        ensures
            check == powered,
    {
        powered
    }

    /// When a powered rail is replaced in place (not moved), its own
    /// neighbours and those of the block below are updated.
    pub fn on_state_replaced(moved: bool, powered: bool) -> (update: bool)
        ensures
            update == (!moved && powered),
    {
        !moved && powered
    }

    pub fn emits_redstone_power() -> (b: bool)
        ensures
            b,
    {
        true
    }

    /// Weak power: 15 while powered.
    pub fn get_weak_redstone_power(powered: bool) -> (p: u8)
        ensures
            p == if powered { 15u8 } else { 0u8 },
    {
        if powered {
            15
        } else {
            0
        }
    }

    /// Strong power: 15 upwards while powered.
    pub fn get_strong_redstone_power(powered: bool, direction: BlockDirection) -> (p: u8)
        ensures
            p == if powered && direction == BlockDirection::Up { 15u8 } else { 0u8 },
    {
        if powered && direction == BlockDirection::Up {
            15
        } else {
            0
        }
    }

    /// Comparator output: 0 while powered, none otherwise.
    pub fn get_comparator_output(powered: bool) -> (o: Option<u8>)
        ensures
            o == if powered { Some(0u8) } else { None },
    {
        if powered {
            Some(0)
        } else {
            None
        }
    }
}

} // verus!
