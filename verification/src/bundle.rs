//! What an entity is made of when it enters the world: the components of a
//! player, of an object of each kind, and of the static boundary.

use crate::component::{Blueprint, Dmg, Health, Object, Player, Storage, Throwable, Undead};
use crate::magic::{BurnSource, Explode, FreezeSource, Heal, ParalyzeSource, Sight};
use crate::shape_mod::Type;
use crate::synthesis::{BLUEPRINT_SIZE, STORAGE_SIZE};
use vstd::prelude::*;

verus! {

/// Health with which a player starts.
pub const PLAYER_HP: i32 = 100;

/// Time between two heals of a heart, in nanoseconds.
pub const HEAL_INTERVAL: u64 = 100_000_000;

/// How long a heart freezes what it touches, in nanoseconds.
pub const FREEZE_DURATION: u64 = 2_000_000_000;

/// How long a square paralyzes a player, in nanoseconds.
pub const PARALYZE_DURATION: u64 = 1_000_000_000;

/// How long a triangle burns what it touches, in nanoseconds.
pub const BURN_DURATION: u64 = 5_000_000_000;

/// Time between two losses by burning, in nanoseconds.
pub const BURN_INTERVAL: u64 = 500_000_000;

/// The gameplay components of a player.
#[derive(Clone, Debug)]
pub struct PlayerBundle {
    pub player: Player,
    pub health: Health,
    pub dmg: Dmg,
    pub storage: Storage,
    pub blueprint: Blueprint,
}

impl PlayerBundle {
    /// A player in full health, with an empty storage and an empty blueprint.
    pub fn new() -> (p: PlayerBundle)
        ensures
            p.health.hp == PLAYER_HP,
            p.dmg == Dmg(1),
            p.storage@.len() == STORAGE_SIZE,
            p.blueprint@.len() == BLUEPRINT_SIZE,
            forall|i: int| 0 <= i < STORAGE_SIZE ==> p.storage@[i] == Type::Empty,
            forall|i: int| 0 <= i < BLUEPRINT_SIZE ==> p.blueprint@[i] == Type::Empty,
    {
        PlayerBundle {
            player: Player,
            health: Health { hp: PLAYER_HP },
            dmg: Dmg(1),
            storage: Storage::new(STORAGE_SIZE),
            blueprint: Blueprint::new(BLUEPRINT_SIZE),
        }
    }
}

/// The effects that an object carries.
#[derive(Copy, Clone, Debug, PartialEq, Eq, Structural)]
pub struct Magic {
    pub heal: Option<Heal>,
    pub sight: Option<Sight>,
    pub freeze: Option<FreezeSource>,
    pub burn: Option<BurnSource>,
    pub paralyze: Option<ParalyzeSource>,
    pub explode: Option<Explode>,
}

impl Magic {
    /// No effect at all.
    pub open spec fn none() -> Magic {
        Magic { heal: None, sight: None, freeze: None, burn: None, paralyze: None, explode: None }
    }
}

/// The health with which an object of a kind enters the world.
pub open spec fn health_of(id: Type) -> i32 {
    match id {
        Type::Square => 10,
        Type::Triangle => 1,
        _ => 2,
    }
}

/// The effects that an object of a kind carries. A heart heals its holder by one point
/// ten times a second and freezes what it touches; a square paralyzes; a circle
/// widens the view and explodes; a triangle burns.
pub open spec fn magic_of(id: Type) -> Magic {
    match id {
        Type::Heart => Magic {
            heal: Some(Heal { hp: 1, timer: crate::timer::Timer::fresh(HEAL_INTERVAL, true) }),
            freeze: Some(FreezeSource { scale: 970, duration: FREEZE_DURATION }),
            ..Magic::none()
        },
        Type::Square => Magic {
            paralyze: Some(ParalyzeSource { duration: PARALYZE_DURATION }),
            ..Magic::none()
        },
        Type::Circle => Magic {
            sight: Some(Sight { scale: 1500 }),
            explode: Some(Explode { radius: 20_000, dmg: 20 }),
            ..Magic::none()
        },
        Type::Triangle => Magic {
            burn: Some(
                BurnSource { dmg: 1, duration: BURN_DURATION, interval: BURN_INTERVAL },
            ),
            ..Magic::none()
        },
        _ => Magic::none(),
    }
}

/// The gameplay components of an object.
#[derive(Copy, Clone, Debug, PartialEq, Eq, Structural)]
pub struct ObjectBundle {
    pub object: Object,
    pub throwable: Throwable,
    pub health: Health,
    pub dmg: Dmg,
    pub magic: Magic,
}

/// The components with which an object of kind `id` enters the world.
pub fn spawn_object(id: Type) -> (o: ObjectBundle)
    ensures
        o == (ObjectBundle {
            object: Object,
            throwable: Throwable(id),
            health: Health { hp: health_of(id) },
            dmg: Dmg(1),
            magic: magic_of(id),
        }),
{
    let plain = Magic {
        heal: None,
        sight: None,
        freeze: None,
        burn: None,
        paralyze: None,
        explode: None,
    };
    let (hp, magic) = match id {
        Type::Heart => (
            2,
            Magic {
                heal: Some(Heal::new(1, HEAL_INTERVAL)),
                freeze: Some(FreezeSource::new(970, FREEZE_DURATION)),
                ..plain
            },
        ),
        Type::Square => (
            10,
            Magic { paralyze: Some(ParalyzeSource::new(PARALYZE_DURATION)), ..plain },
        ),
        Type::Circle => (
            2,
            Magic {
                sight: Some(Sight::new(1500)),
                explode: Some(Explode::new(20_000, 20)),
                ..plain
            },
        ),
        Type::Triangle => (
            1,
            Magic {
                burn: Some(BurnSource::new(1, BURN_DURATION, BURN_INTERVAL)),
                ..plain
            },
        ),
        _ => (2, plain),
    };
    ObjectBundle {
        object: Object,
        throwable: Throwable(id),
        health: Health { hp },
        dmg: Dmg(1),
        magic,
    }
}

/// The gameplay components of a piece of the static boundary.
#[derive(Copy, Clone, Debug, PartialEq, Eq, Structural)]
pub struct StaticBundle {
    pub health: Health,
    pub dmg: Dmg,
    pub undead: Undead,
}

impl StaticBundle {
    /// A piece of the boundary: it inflicts damage like anything else, has no hit
    /// points, and is never removed.
    pub fn new_rect() -> (s: StaticBundle)
        ensures
            s == (StaticBundle { health: Health { hp: 0 }, dmg: Dmg(1), undead: Undead }),
    {
        StaticBundle { health: Health { hp: 0 }, dmg: Dmg(1), undead: Undead }
    }
}

} // verus!
