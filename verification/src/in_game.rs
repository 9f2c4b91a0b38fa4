//! The player in the world: the grab and throw of objects, steering, the
//! spawning of objects, the boundary, and the end of the game.

use crate::component::{find_row, row_of, EntityId, Grabbed, Health};
use crate::magic::can_move;
use crate::shape_mod::Type;
use crate::timer::Timer;
use rand::Rng;
use vstd::prelude::*;

verus! {

/// The throwable object that the player's forward ray meets on this tick, and the one
/// it met on the tick before. Only the difference of the two matters: it tells which
/// object to stop highlighting and which to highlight.
#[derive(Copy, Clone, Debug, PartialEq, Eq, Structural)]
pub struct EntityInRange {
    pub prev: Option<EntityId>,
    pub cur: Option<EntityId>,
}

/// The object that the player holds, if any.
#[derive(Copy, Clone, Debug, PartialEq, Eq, Structural)]
pub struct EntityInHand {
    pub entity: Option<EntityId>,
}

/// Which object loses its highlight and which gains it.
#[derive(Copy, Clone, Debug, PartialEq, Eq, Structural)]
pub struct Highlight {
    pub dim: Option<EntityId>,
    pub light: Option<EntityId>,
}

/// Distance from the player's centre at which the forward ray starts, just outside the
/// player's own boundary, in thousandths of a unit.
pub const RAY_OFFSET: u32 = 2100;

/// Length of the forward ray, in thousandths of a unit.
pub const RAY_LENGTH: u32 = 4000;

impl EntityInRange {
    /// Nothing in range, now or before.
    pub fn new() -> (r: EntityInRange)
        ensures
            r == (EntityInRange { prev: None, cur: None }),
    {
        EntityInRange { prev: None, cur: None }
    }

    /// The state after the highlight was brought up to date: what is in range now
    /// becomes what was in range before, and nothing is in range until the next ray.
    pub open spec fn rolled(self) -> EntityInRange {
        EntityInRange { prev: self.cur, cur: None }
    }

    /// What the highlight has to change: nothing while the same object, or none, stays
    /// in range; otherwise the one before loses it and the one now gains it.
    pub open spec fn highlight(self) -> Highlight {
        if self.prev != self.cur {
            Highlight { dim: self.prev, light: self.cur }
        } else {
            Highlight { dim: None, light: None }
        }
    }

    /// Tells what the highlight has to change, and ends the tick for the range candidate.
    pub fn update_shape_of_detected_objects(&mut self) -> (h: Highlight)
        ensures
            h == old(self).highlight(),
            *final(self) == old(self).rolled(),
    {
        let h = if !same_entity(self.prev, self.cur) {
            Highlight { dim: self.prev, light: self.cur }
        } else {
            Highlight { dim: None, light: None }
        };
        self.prev = self.cur;
        self.cur = None;
        h
    }
}

/// Whether two optional entities are the same.
pub fn same_entity(a: Option<EntityId>, b: Option<EntityId>) -> (same: bool)
    ensures
        same == (a == b),
{
    match (a, b) {
        (Some(x), Some(y)) => x == y,
        (None, None) => true,
        _ => false,
    }
}

/// The range candidate after the ray of this tick was recorded.
pub open spec fn detected<T>(
    range: EntityInRange,
    hit: Option<EntityId>,
    throwables: Seq<(EntityId, T)>,
) -> EntityInRange {
    EntityInRange {
        prev: range.prev,
        cur: match hit {
            Some(e) => if row_of(throwables, e) is Some {
                Some(e)
            } else {
                range.cur
            },
            None => range.cur,
        },
    }
}

/// Records what the forward ray met first: the entity becomes the range candidate of
/// this tick if it is throwable, that is, if it has a row in `throwables`. A ray that
/// met nothing, or something that cannot be thrown, leaves the candidate as it is.
pub fn detect_objects_forward<T>(
    range: &mut EntityInRange,
    hit: Option<EntityId>,
    throwables: &Vec<(EntityId, T)>,
)
    ensures
        *final(range) == detected(*old(range), hit, throwables@),
{
    match hit {
        Some(e) => {
            if find_row(throwables, e).is_some() {
                range.cur = Some(e);
            }
        },
        None => {},
    }
}

/// A joint of the physics world that ties a held object to its holder and lets it move
/// along one axis between two distances, given in thousandths of a unit.
#[derive(Copy, Clone, Debug, PartialEq, Eq, Structural)]
pub struct Joint {
    pub holder: EntityId,
    pub held: EntityId,
    pub min: u32,
    pub max: u32,
}

/// A throw that the physics world is to carry out: the joints of the holder are removed
/// and the object gets an impulse of the given strength along the holder's facing.
#[derive(Copy, Clone, Debug, PartialEq, Eq, Structural)]
pub struct Throw {
    pub object: EntityId,
    pub impulse: u32,
}

/// Strength of the impulse of a throw.
pub const THROW_IMPULSE: u32 = 1000;

/// Range of the joint of an object that was grabbed, in thousandths of a unit.
pub const GRAB_MIN: u32 = 4000;

pub const GRAB_MAX: u32 = 7000;

/// Range of the joint of an object that was taken out of the storage.
pub const HOLD_MIN: u32 = 6500;

pub const HOLD_MAX: u32 = 8000;

/// Range of the joint of the object that a player starts with.
pub const START_MIN: u32 = 7000;

pub const START_MAX: u32 = 8000;

/// The grab state of one player: the object in hand, the joints that touch the player,
/// and the objects that are marked as grabbed by the player.
///
/// The state is either empty, with no joint and no mark, or holding, with exactly one
/// joint and one mark, both for the object in hand; see [`Grip::wf`].
#[derive(Clone, Debug)]
pub struct Grip {
    pub player: EntityId,
    pub in_hand: EntityInHand,
    pub joints: Vec<Joint>,
    pub grabbed: Vec<(EntityId, Grabbed)>,
}

/// What a grip holds, as plain values.
pub struct GripView {
    pub player: EntityId,
    pub in_hand: Option<EntityId>,
    pub joints: Seq<Joint>,
    pub grabbed: Seq<(EntityId, Grabbed)>,
}

impl View for Grip {
    type V = GripView;

    open spec fn view(&self) -> GripView {
        GripView {
            player: self.player,
            in_hand: self.in_hand.entity,
            joints: self.joints@,
            grabbed: self.grabbed@,
        }
    }
}

impl Grip {
    /// The object in hand is there exactly if one joint ties the player to it and it
    /// alone is marked as grabbed by the player; with an empty hand there is no joint
    /// and no mark.
    pub open spec fn wf(&self) -> bool {
        match self.in_hand.entity {
            Some(object) => {
                &&& self.joints@.len() == 1
                &&& self.joints@[0].holder == self.player
                &&& self.joints@[0].held == object
                &&& self.grabbed@ == seq![(object, Grabbed(self.player))]
            },
            None => self.joints@.len() == 0 && self.grabbed@.len() == 0,
        }
    }

    /// Whether the state is the one in which `object` is held by a joint of the given range.
    pub open spec fn holds(&self, object: EntityId, min: u32, max: u32) -> bool {
        &&& self.in_hand.entity == Some(object)
        &&& self.joints@ == seq![Joint { holder: self.player, held: object, min, max }]
        &&& self.grabbed@ == seq![(object, Grabbed(self.player))]
    }

    /// Whether the state is the empty one.
    pub open spec fn is_empty(&self) -> bool {
        &&& self.in_hand.entity is None
        &&& self.joints@.len() == 0
        &&& self.grabbed@.len() == 0
    }

    /// The grip of a player that holds nothing.
    pub fn new(player: EntityId) -> (g: Grip)
        ensures
            g.player == player,
            g.is_empty(),
            g.wf(),
    {
        Grip { player, in_hand: EntityInHand { entity: None }, joints: Vec::new(), grabbed: Vec::new() }
    }

    /// Takes `object` in hand if the hand is empty: one joint is made and the object is
    /// marked. Returns the joint for the physics world to create; with an object in hand
    /// already, nothing changes and `None` is returned.
    pub fn attach(&mut self, object: EntityId, min: u32, max: u32) -> (made: Option<Joint>)
        ensures
            final(self).player == old(self).player,
            old(self).in_hand.entity is None ==> final(self).holds(object, min, max) && made
                == Some(Joint { holder: old(self).player, held: object, min, max }),
            old(self).in_hand.entity is Some ==> final(self)@ == old(self)@ && made is None,
            old(self).wf() ==> final(self).wf(),
            final(self).in_hand.entity is Some,
    {
        if self.in_hand.entity.is_some() {
            return None;
        }
        let joint = Joint { holder: self.player, held: object, min, max };
        self.in_hand.entity = Some(object);
        self.joints = Vec::new();
        self.joints.push(joint);
        self.grabbed = Vec::new();
        self.grabbed.push((object, Grabbed(self.player)));
        proof {
            assert(self.joints@ =~= seq![joint]);
            assert(self.grabbed@ =~= seq![(object, Grabbed(self.player))]);
        }
        Some(joint)
    }

    /// Lets go of whatever is held: every joint of the player and every mark is removed
    /// and the hand is empty. Returns the object that was in hand. Releasing with an
    /// empty hand changes nothing, so every path that has to release may do so.
    pub fn release(&mut self) -> (freed: Option<EntityId>)
        ensures
            final(self).player == old(self).player,
            final(self).is_empty(),
            final(self).wf(),
            freed == old(self).in_hand.entity,
            old(self).is_empty() ==> final(self)@ == old(self)@,
    {
        let freed = self.in_hand.entity;
        self.in_hand.entity = None;
        self.joints = Vec::new();
        self.grabbed = Vec::new();
        proof {
            if old(self).is_empty() {
                assert(self.joints@ =~= old(self).joints@);
                assert(self.grabbed@ =~= old(self).grabbed@);
            }
        }
        freed
    }

    /// Grabs the range candidate: with the grab button down, an empty hand and a
    /// candidate in range, the candidate is taken in hand. Returns the joint to create.
    pub fn player_grab_system(&mut self, pressed: bool, range: &EntityInRange) -> (made: Option<
        Joint,
    >)
        ensures
            final(self).player == old(self).player,
            old(self).wf() ==> final(self).wf(),
            match range.cur {
                Some(object) if pressed && old(self).in_hand.entity is None => final(self).holds(
                    object,
                    GRAB_MIN,
                    GRAB_MAX,
                ) && made == Some(
                    Joint { holder: old(self).player, held: object, min: GRAB_MIN, max: GRAB_MAX },
                ),
                _ => final(self)@ == old(self)@ && made is None,
            },
    {
        if self.in_hand.entity.is_none() && pressed {
            match range.cur {
                Some(object) => self.attach(object, GRAB_MIN, GRAB_MAX),
                None => None,
            }
        } else {
            None
        }
    }

    /// Throws the held object: with the throw key down and an object in hand, the grip
    /// lets go of it. Returns the throw for the physics world to carry out.
    pub fn player_throw_system(&mut self, pressed: bool) -> (thrown: Option<Throw>)
        ensures
            final(self).player == old(self).player,
            old(self).wf() ==> final(self).wf(),
            match old(self).in_hand.entity {
                Some(object) if pressed => final(self).is_empty() && thrown == Some(
                    Throw { object, impulse: THROW_IMPULSE },
                ),
                _ => final(self)@ == old(self)@ && thrown is None,
            },
            pressed && old(self).wf() ==> final(self).in_hand.entity is None
                && final(self).joints@.len() == 0,
    {
        if pressed {
            match self.in_hand.entity {
                Some(object) => {
                    self.release();
                    Some(Throw { object, impulse: THROW_IMPULSE })
                },
                None => None,
            }
        } else {
            None
        }
    }
}

/// What one tick of the grab interaction tells the world to do.
#[derive(Copy, Clone, Debug, PartialEq, Eq, Structural)]
pub struct InteractionOutcome {
    /// The joint to create, if an object was grabbed.
    pub joint: Option<Joint>,
    /// What the highlight has to change.
    pub highlight: Highlight,
}

/// Runs the grab interaction of one tick in its order: the ray is recorded, then the
/// grab is resolved against the candidate that the ray gave on this very tick, then the
/// highlight is brought up to date and the candidate is cleared.
pub fn interaction_system<T>(
    range: &mut EntityInRange,
    grip: &mut Grip,
    hit: Option<EntityId>,
    throwables: &Vec<(EntityId, T)>,
    pressed: bool,
) -> (done: InteractionOutcome)
    ensures
        *final(range) == detected(*old(range), hit, throwables@).rolled(),
        done.highlight == detected(*old(range), hit, throwables@).highlight(),
        final(grip).player == old(grip).player,
        old(grip).wf() ==> final(grip).wf(),
        match detected(*old(range), hit, throwables@).cur {
            Some(object) if pressed && old(grip).in_hand.entity is None => final(grip).holds(
                object,
                GRAB_MIN,
                GRAB_MAX,
            ) && done.joint == Some(
                Joint { holder: old(grip).player, held: object, min: GRAB_MIN, max: GRAB_MAX },
            ),
            _ => final(grip)@ == old(grip)@ && done.joint is None,
        },
{
    detect_objects_forward(range, hit, throwables);
    let joint = grip.player_grab_system(pressed, range);
    let highlight = range.update_shape_of_detected_objects();
    InteractionOutcome { joint, highlight }
}

/// The states of the game as a whole.
#[derive(Copy, Clone, Debug, PartialEq, Eq, Hash, Structural)]
pub enum AppState {
    Setup,
    InGame,
    EndGame,
}

/// Ends the game when the player has died: a running game whose player has no hit
/// points left goes to its end state. Nothing else changes the state here.
pub fn update_game_state(state: AppState, player: &Health) -> (next: AppState)
    ensures
        next == if state == AppState::InGame && player.is_dead() {
            AppState::EndGame
        } else {
            state
        },
{
    match state {
        AppState::InGame => {
            if player.dead() {
                AppState::EndGame
            } else {
                state
            }
        },
        _ => state,
    }
}

/// The keys that steer the player.
#[derive(Copy, Clone, Debug, PartialEq, Eq, Structural)]
pub struct Steering {
    pub left: bool,
    pub right: bool,
    pub up: bool,
    pub down: bool,
}

/// Strength of the force with which the player drives itself.
pub const DRIVE_FORCE: i32 = 2000;

/// Strength of the friction that works against a moving player.
pub const FRICTION_FORCE: i32 = 600;

impl Steering {
    /// The direction that the keys ask for, each axis -1, 0 or 1; opposite keys cancel.
    pub open spec fn direction(self) -> (int, int) {
        (
            (if self.right {
                1int
            } else {
                0int
            }) - (if self.left {
                1int
            } else {
                0int
            }),
            (if self.up {
                1int
            } else {
                0int
            }) - (if self.down {
                1int
            } else {
                0int
            }),
        )
    }
}

/// The force with which the player drives itself on this tick, or `None` if no force
/// may be written: the game is over, or an effect that immobilizes is attached to the
/// player. Friction is not part of it.
pub fn player_movement_system(
    state: AppState,
    keys: Steering,
    paralyzed: bool,
    frozen: bool,
) -> (force: Option<(i32, i32)>)
    ensures
        force is Some <==> state != AppState::EndGame && !paralyzed && !frozen,
        force matches Some(f) ==> f.0 == keys.direction().0 * DRIVE_FORCE && f.1
            == keys.direction().1 * DRIVE_FORCE,
{
    if state == AppState::EndGame || !can_move(paralyzed, frozen) {
        return None;
    }
    let mut dir_x: i32 = 0;
    let mut dir_y: i32 = 0;
    if keys.left {
        dir_x -= 1;
    }
    if keys.right {
        dir_x += 1;
    }
    if keys.up {
        dir_y += 1;
    }
    if keys.down {
        dir_y -= 1;
    }
    Some((dir_x * DRIVE_FORCE, dir_y * DRIVE_FORCE))
}

/// Most objects that the world holds before spawning pauses.
pub const MAX_OBJECTS: usize = 10;

/// Number of kinds that spawn by themselves.
pub const BASIC_COUNT: u8 = 3;

/// The kinds that spawn by themselves, by the number that was drawn; a number that
/// stands for none of them gives nothing.
pub open spec fn basic_kind(roll: u8) -> Option<Type> {
    if roll == 0 {
        Some(Type::Square)
    } else if roll == 1 {
        Some(Type::Circle)
    } else if roll == 2 {
        Some(Type::Triangle)
    } else {
        None
    }
}

/// Time between two spawns, in nanoseconds.
pub const SPAWN_INTERVAL: u64 = 1_000_000_000;

/// Paces the spawning of objects.
#[derive(Copy, Clone, Debug, PartialEq, Eq, Structural)]
pub struct SpawnTimer(pub Timer);

impl SpawnTimer {
    /// A timer that fires once a second.
    pub fn new() -> (t: SpawnTimer)
        ensures
            t.0 == Timer::fresh(SPAWN_INTERVAL, true),
    {
        SpawnTimer(Timer::new(SPAWN_INTERVAL, true))
    }
}

/// Calls `rand::Rng::gen_range` on the thread's generator with the range `0..bound`.
///
/// Trusted: the number drawn lies in the range, which must not be empty. Nothing else
/// is known of it.
#[verifier::external_body]
fn draw_below(bound: u8) -> (roll: u8)
    requires
        bound > 0,
    ensures
        roll < bound,
{
    rand::thread_rng().gen_range(0..bound)
}

/// What is to be spawned, given that the spawn timer has or has not fired, the number of
/// objects in the world, and the number that was drawn: the basic kind of that number if
/// the timer fired and the world holds fewer than ten objects, else nothing.
pub fn spawn_choice(fired: bool, objects: usize, roll: u8) -> (kind: Option<Type>)
    ensures
        kind == if fired && objects < MAX_OBJECTS {
            basic_kind(roll)
        } else {
            None
        },
{
    if fired && objects < MAX_OBJECTS {
        if roll == 0 {
            Some(Type::Square)
        } else if roll == 1 {
            Some(Type::Circle)
        } else if roll == 2 {
            Some(Type::Triangle)
        } else {
            None
        }
    } else {
        None
    }
}

/// Advances the spawn timer and, each time it fires while the world holds fewer than
/// ten objects, picks a basic kind at random for the world to spawn.
pub fn spawn_objects(timer: &mut SpawnTimer, delta: u64, objects: usize) -> (kind: Option<Type>)
    ensures
        final(timer).0 == old(timer).0.ticked(delta),
        kind is Some <==> final(timer).0.is_just_finished() && objects < MAX_OBJECTS,
        kind matches Some(t) ==> t == Type::Square || t == Type::Circle || t == Type::Triangle,
{
    timer.0.tick(delta);
    if timer.0.just_finished() && objects < MAX_OBJECTS {
        let roll = draw_below(BASIC_COUNT);
        spawn_choice(true, objects, roll)
    } else {
        None
    }
}

/// What a well-formed grip means: an object is in hand exactly if one joint touches
/// the player and one object is marked as grabbed, and then both are for that object.
pub proof fn lemma_single_hold(grip: Grip)
    requires
        grip.wf(),
    ensures
        grip.in_hand.entity is Some <==> grip.joints@.len() == 1 && grip.grabbed@.len() == 1,
        grip.in_hand.entity is None <==> grip.joints@.len() == 0 && grip.grabbed@.len() == 0,
        grip.joints@.len() <= 1,
        grip.grabbed@.len() <= 1,
        grip.in_hand.entity matches Some(object) ==> grip.joints@[0].held == object
            && grip.joints@[0].holder == grip.player && grip.grabbed@[0] == (
            object,
            Grabbed(grip.player),
        ),
{
}

/// Sets a player up with the object that it starts with in hand. Returns the grip and
/// the joint for the physics world to create.
pub fn spawn_player(player: EntityId, object: EntityId) -> (r: (Grip, Joint))
    ensures
        r.0.player == player,
        r.0.holds(object, START_MIN, START_MAX),
        r.0.wf(),
        r.1 == (Joint { holder: player, held: object, min: START_MIN, max: START_MAX }),
{
    let mut grip = Grip::new(player);
    let joint = grip.attach(object, START_MIN, START_MAX);
    match joint {
        Some(j) => (grip, j),
        None => (grip, Joint { holder: player, held: object, min: START_MIN, max: START_MAX }),
    }
}

/// Width of the playing field, in whole units.
pub const BOUNDARY_HORIZONTAL: i32 = 192;

/// Height of the playing field.
pub const BOUNDARY_VERTICAL: i32 = 108;

/// Thickness of the walls to the left and right of the field.
pub const OFFSET_HORIZONTAL: i32 = 50;

/// Thickness of the walls above and below the field.
pub const OFFSET_VERTICAL: i32 = 50;

/// A wall of the boundary: a rectangle given by its half extents and its centre, in
/// whole units.
#[derive(Copy, Clone, Debug, PartialEq, Eq, Structural)]
pub struct Wall {
    pub half_width: i32,
    pub half_height: i32,
    pub x: i32,
    pub y: i32,
}

/// The four walls that close the playing field in: above, below, right and left, each
/// centred one wall thickness beyond the edge of the field.
pub open spec fn boundary() -> Seq<Wall> {
    let half_m = BOUNDARY_VERTICAL / 2 + OFFSET_VERTICAL;
    let half_n = BOUNDARY_HORIZONTAL / 2 + OFFSET_HORIZONTAL;
    seq![
        Wall { half_width: half_n as i32, half_height: OFFSET_VERTICAL, x: 0, y: half_m as i32 },
        Wall { half_width: half_n as i32, half_height: OFFSET_VERTICAL, x: 0, y: (-half_m) as i32 },
        Wall { half_width: OFFSET_HORIZONTAL, half_height: half_m as i32, x: half_n as i32, y: 0 },
        Wall { half_width: OFFSET_HORIZONTAL, half_height: half_m as i32, x: (-half_n) as i32, y: 0 },
    ]
}

/// The walls of the boundary, for the world to spawn.
pub fn spawn_boundary() -> (walls: Vec<Wall>)
    ensures
        walls@ == boundary(),
{
    let half_m: i32 = BOUNDARY_VERTICAL / 2 + OFFSET_VERTICAL;
    let half_n: i32 = BOUNDARY_HORIZONTAL / 2 + OFFSET_HORIZONTAL;
    let mut walls: Vec<Wall> = Vec::new();
    walls.push(Wall { half_width: half_n, half_height: OFFSET_VERTICAL, x: 0, y: half_m });
    walls.push(Wall { half_width: half_n, half_height: OFFSET_VERTICAL, x: 0, y: -half_m });
    walls.push(Wall { half_width: OFFSET_HORIZONTAL, half_height: half_m, x: half_n, y: 0 });
    walls.push(Wall { half_width: OFFSET_HORIZONTAL, half_height: half_m, x: -half_n, y: 0 });
    proof {
        assert(walls@ =~= boundary());
    }
    walls
}

} // verus!
