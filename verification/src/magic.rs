//! Status effects: what a source attaches to the entities it touches, how an
//! attached effect acts while it lasts, and when it ends.

use crate::component::{
    contains_id, damaged, find_row, healed, row_of, EntityId, Grabbed, Health, Velocity,
};
use crate::timer::{lemma_one_shot_finishes_once, ticked_all, total, Timer};
use vstd::prelude::*;

verus! {

/// An effect that lasts for a time and is taken off its entity when that time is over.
pub trait MagicWithTimer: Sized {
    /// The effect as one tick of `delta` nanoseconds leaves it.
    spec fn ticked(self, delta: u64) -> Self;

    /// Whether the time of the effect ran out during its last tick.
    spec fn expired(self) -> bool;

    /// The timer that measures how long the effect lasts.
    spec fn clock(self) -> Timer;

    /// A tick of the effect ticks its clock, and the effect expires when its clock has
    /// just finished.
    proof fn lemma_clock(self, delta: u64)
        ensures
            self.ticked(delta).clock() == self.clock().ticked(delta),
            self.expired() == self.clock().is_just_finished(),
    ;

    /// Advances the timers of the effect and tells whether its time ran out just now.
    fn tick(&mut self, delta: u64) -> (finished: bool)
        ensures
            *final(self) == old(self).ticked(delta),
            finished == final(self).expired(),
    ;
}

/// The effects that are still attached after one tick of `delta`, each as the tick left it.
pub open spec fn kept_after<T: MagicWithTimer>(effects: Seq<(EntityId, T)>, delta: u64) -> Seq<
    (EntityId, T),
>
    decreases effects.len(),
{
    if effects.len() == 0 {
        Seq::empty()
    } else {
        let front = kept_after(effects.drop_last(), delta);
        let after = effects.last().1.ticked(delta);
        if after.expired() {
            front
        } else {
            front.push((effects.last().0, after))
        }
    }
}

/// The entities whose effect ended with the tick of `delta`, in row order.
pub open spec fn ended_after<T: MagicWithTimer>(effects: Seq<(EntityId, T)>, delta: u64) -> Seq<
    EntityId,
>
    decreases effects.len(),
{
    if effects.len() == 0 {
        Seq::empty()
    } else {
        let front = ended_after(effects.drop_last(), delta);
        if effects.last().1.ticked(delta).expired() {
            front.push(effects.last().0)
        } else {
            front
        }
    }
}

/// Ticks every attached effect of one kind by `delta` nanoseconds. Returns the effects
/// that remain attached, and the entities from which the effect is to be taken off
/// because its time ran out during this tick.
pub fn magic_timer_system<T: MagicWithTimer + Copy>(effects: &Vec<(EntityId, T)>, delta: u64) -> (r:
    (Vec<(EntityId, T)>, Vec<EntityId>))
    ensures
        r.0@ == kept_after(effects@, delta),
        r.1@ == ended_after(effects@, delta),
{
    let mut kept: Vec<(EntityId, T)> = Vec::new();
    let mut ended: Vec<EntityId> = Vec::new();
    let n = effects.len();
    let mut i: usize = 0;
    while i < n
        invariant
            n == effects@.len(),
            i <= n,
            kept@ == kept_after(effects@.take(i as int), delta),
            ended@ == ended_after(effects@.take(i as int), delta),
        decreases n - i,
    {
        proof {
            assert(effects@.take(i as int + 1).drop_last() =~= effects@.take(i as int));
        }
        let entity = effects[i].0;
        let mut magic = effects[i].1;
        if magic.tick(delta) {
            ended.push(entity);
        } else {
            kept.push((entity, magic));
        }
        i += 1;
    }
    proof {
        assert(effects@.take(n as int) =~= effects@);
    }
    (kept, ended)
}

/// Heals the holder each time its timer fires, while the carrying object is held.
/// A negative `hp` harms instead.
#[derive(Copy, Clone, Debug, PartialEq, Eq, Structural)]
pub struct Heal {
    pub hp: i32,
    pub timer: Timer,
}

impl Heal {
    /// Heals by `hp` every `interval` nanoseconds.
    pub fn new(hp: i32, interval: u64) -> (h: Heal)
        ensures
            h == (Heal { hp, timer: Timer::fresh(interval, true) }),
    {
        Heal { hp, timer: Timer::new(interval, true) }
    }
}

/// Widens the view while the carrying object is held, up to `scale` thousandths.
#[derive(Copy, Clone, Debug, PartialEq, Eq, Structural)]
pub struct Sight {
    pub scale: u32,
}

impl Sight {
    /// A widening of the view up to `scale` thousandths.
    pub fn new(scale: u32) -> (s: Sight)
        ensures
            s.scale == scale,
    {
        Sight { scale }
    }
}

/// Slows an entity down for some time: while attached, the velocity is multiplied by
/// `scale` thousandths on every tick.
#[derive(Copy, Clone, Debug, PartialEq, Eq, Structural)]
pub struct Frozen {
    pub scale: u16,
    pub duration: Timer,
}

/// Attaches `Frozen` to the players and objects that it touches.
#[derive(Copy, Clone, Debug, PartialEq, Eq, Structural)]
pub struct FreezeSource {
    pub scale: u16,
    pub duration: u64,
}

impl FreezeSource {
    /// A source whose effect multiplies by `scale` thousandths for `duration` nanoseconds.
    pub fn new(scale: u16, duration: u64) -> (s: FreezeSource)
        ensures
            s == (FreezeSource { scale, duration }),
    {
        FreezeSource { scale, duration }
    }

    /// The effect that this source attaches.
    pub open spec fn effect(&self) -> Frozen {
        Frozen { scale: self.scale, duration: Timer::fresh(self.duration, false) }
    }

    /// A fresh effect with this source's parameters, its time not yet started.
    pub fn generate_effect(&self) -> (e: Frozen)
        ensures
            e == self.effect(),
    {
        Frozen { scale: self.scale, duration: Timer::new(self.duration, false) }
    }
}

impl MagicWithTimer for Frozen {
    open spec fn ticked(self, delta: u64) -> Frozen {
        Frozen { duration: self.duration.ticked(delta), ..self }
    }

    open spec fn expired(self) -> bool {
        self.duration.is_just_finished()
    }

    open spec fn clock(self) -> Timer {
        self.duration
    }

    proof fn lemma_clock(self, delta: u64) {
    }

    fn tick(&mut self, delta: u64) -> (finished: bool) {
        self.duration.tick(delta);
        self.duration.just_finished()
    }
}

/// Burns an entity for some time: each time `interval` fires, the entity loses `dmg`.
#[derive(Copy, Clone, Debug, PartialEq, Eq, Structural)]
pub struct Burned {
    pub dmg: i32,
    pub duration: Timer,
    pub interval: Timer,
}

/// Attaches `Burned` to whatever it touches.
#[derive(Copy, Clone, Debug, PartialEq, Eq, Structural)]
pub struct BurnSource {
    pub dmg: i32,
    pub duration: u64,
    pub interval: u64,
}

impl BurnSource {
    /// A source whose effect takes `dmg` every `interval` nanoseconds, for `duration`.
    pub fn new(dmg: i32, duration: u64, interval: u64) -> (s: BurnSource)
        ensures
            s == (BurnSource { dmg, duration, interval }),
    {
        BurnSource { dmg, duration, interval }
    }

    /// The effect that this source attaches.
    pub open spec fn effect(&self) -> Burned {
        Burned {
            dmg: self.dmg,
            duration: Timer::fresh(self.duration, false),
            interval: Timer::fresh(self.interval, true),
        }
    }

    /// A fresh effect with this source's parameters, its time not yet started.
    pub fn generate_effect(&self) -> (e: Burned)
        ensures
            e == self.effect(),
    {
        Burned {
            dmg: self.dmg,
            duration: Timer::new(self.duration, false),
            interval: Timer::new(self.interval, true),
        }
    }
}

impl MagicWithTimer for Burned {
    open spec fn ticked(self, delta: u64) -> Burned {
        Burned {
            interval: self.interval.ticked(delta),
            duration: self.duration.ticked(delta),
            ..self
        }
    }

    open spec fn expired(self) -> bool {
        self.duration.is_just_finished()
    }

    open spec fn clock(self) -> Timer {
        self.duration
    }

    proof fn lemma_clock(self, delta: u64) {
    }

    fn tick(&mut self, delta: u64) -> (finished: bool) {
        self.interval.tick(delta);
        self.duration.tick(delta);
        self.duration.just_finished()
    }
}

/// Keeps a player from moving for some time. `fresh` tells that the effect was attached
/// and has not yet stopped the player.
#[derive(Copy, Clone, Debug, PartialEq, Eq, Structural)]
pub struct Paralyzed {
    pub duration: Timer,
    pub fresh: bool,
}

/// Attaches `Paralyzed` to the players that it touches; objects are immune.
#[derive(Copy, Clone, Debug, PartialEq, Eq, Structural)]
pub struct ParalyzeSource {
    pub duration: u64,
}

impl ParalyzeSource {
    /// A source whose effect lasts `duration` nanoseconds.
    pub fn new(duration: u64) -> (s: ParalyzeSource)
        ensures
            s.duration == duration,
    {
        ParalyzeSource { duration }
    }

    /// The effect that this source attaches.
    pub open spec fn effect(&self) -> Paralyzed {
        Paralyzed { duration: Timer::fresh(self.duration, false), fresh: true }
    }

    /// A fresh effect with this source's parameters, its time not yet started.
    pub fn generate_effect(&self) -> (e: Paralyzed)
        ensures
            e == self.effect(),
    {
        Paralyzed { duration: Timer::new(self.duration, false), fresh: true }
    }
}

impl MagicWithTimer for Paralyzed {
    open spec fn ticked(self, delta: u64) -> Paralyzed {
        Paralyzed { duration: self.duration.ticked(delta), ..self }
    }

    open spec fn expired(self) -> bool {
        self.duration.is_just_finished()
    }

    open spec fn clock(self) -> Timer {
        self.duration
    }

    proof fn lemma_clock(self, delta: u64) {
    }

    fn tick(&mut self, delta: u64) -> (finished: bool) {
        self.duration.tick(delta);
        self.duration.just_finished()
    }
}

/// Deals `dmg` to everything within `radius` thousandths of a unit when the carrying
/// object dies.
#[derive(Copy, Clone, Debug, PartialEq, Eq, Structural)]
pub struct Explode {
    pub radius: u32,
    pub dmg: i32,
}

impl Explode {
    /// An explosion that reaches `radius` thousandths of a unit and takes `dmg` hit points.
    pub fn new(radius: u32, dmg: i32) -> (e: Explode)
        ensures
            e == (Explode { radius, dmg }),
    {
        Explode { radius, dmg }
    }
}

/// A frozen body after one tick: slowed by the factor of its effect.
pub open spec fn frozen_row(row: (Velocity, Frozen)) -> (Velocity, Frozen) {
    (row.0.damped(row.1.scale), row.1)
}

/// Slows every frozen body down by the factor of its effect. This runs on every tick
/// while the effect is attached.
pub fn frozen_system(bodies: &mut Vec<(Velocity, Frozen)>)
    ensures
        final(bodies)@.len() == old(bodies)@.len(),
        forall|i: int|
            0 <= i < old(bodies)@.len() ==> #[trigger] final(bodies)@[i] == frozen_row(
                old(bodies)@[i],
            ),
{
    let n = bodies.len();
    let mut i: usize = 0;
    while i < n
        invariant
            n == bodies@.len(),
            n == old(bodies)@.len(),
            i <= n,
            forall|j: int| 0 <= j < i ==> #[trigger] bodies@[j] == frozen_row(old(bodies)@[j]),
            forall|j: int| i <= j < n ==> #[trigger] bodies@[j] == old(bodies)@[j],
        decreases n - i,
    {
        let (mut vel, frozen) = bodies[i];
        vel.damp(frozen.scale);
        bodies.set(i, (vel, frozen));
        i += 1;
    }
}

/// A burning entity after one tick: it loses the damage of its effect if the interval
/// of the effect fired during the tick.
pub open spec fn burned_row(row: (Health, Burned)) -> (Health, Burned) {
    if row.1.interval.is_just_finished() {
        (Health { hp: damaged(row.0.hp as int, row.1.dmg as int) as i32 }, row.1)
    } else {
        row
    }
}

/// Takes the burn damage from every burning entity whose interval has just fired.
pub fn burned_system(burning: &mut Vec<(Health, Burned)>)
    ensures
        final(burning)@.len() == old(burning)@.len(),
        forall|i: int|
            0 <= i < old(burning)@.len() ==> #[trigger] final(burning)@[i] == burned_row(
                old(burning)@[i],
            ),
{
    let n = burning.len();
    let mut i: usize = 0;
    while i < n
        invariant
            n == burning@.len(),
            n == old(burning)@.len(),
            i <= n,
            forall|j: int| 0 <= j < i ==> #[trigger] burning@[j] == burned_row(old(burning)@[j]),
            forall|j: int| i <= j < n ==> #[trigger] burning@[j] == old(burning)@[j],
        decreases n - i,
    {
        let (mut health, burned) = burning[i];
        if burned.interval.just_finished() {
            health.damage(burned.dmg);
            burning.set(i, (health, burned));
        }
        i += 1;
    }
}

/// A paralyzed body after one pass: stopped if the effect was attached since the last
/// pass, and left alone otherwise.
pub open spec fn paralyzed_row(row: (Velocity, Paralyzed)) -> (Velocity, Paralyzed) {
    if row.1.fresh {
        (row.0.halted(), Paralyzed { fresh: false, ..row.1 })
    } else {
        row
    }
}

/// Stops the linear motion of every body whose paralysis was attached since the last
/// pass, once. A body that was stopped before keeps whatever velocity it has by now.
pub fn paralyzed_system(bodies: &mut Vec<(Velocity, Paralyzed)>)
    ensures
        final(bodies)@.len() == old(bodies)@.len(),
        forall|i: int|
            0 <= i < old(bodies)@.len() ==> #[trigger] final(bodies)@[i] == paralyzed_row(
                old(bodies)@[i],
            ),
{
    let n = bodies.len();
    let mut i: usize = 0;
    while i < n
        invariant
            n == bodies@.len(),
            n == old(bodies)@.len(),
            i <= n,
            forall|j: int| 0 <= j < i ==> #[trigger] bodies@[j] == paralyzed_row(old(bodies)@[j]),
            forall|j: int| i <= j < n ==> #[trigger] bodies@[j] == old(bodies)@[j],
        decreases n - i,
    {
        let (mut vel, mut paralyzed) = bodies[i];
        if paralyzed.fresh {
            vel.halt();
            paralyzed.fresh = false;
            bodies.set(i, (vel, paralyzed));
        }
        i += 1;
    }
}

/// Whether an entity may be steered: no effect that immobilizes is attached to it.
/// Whatever sets the forces or the spin of a player asks this first.
pub fn can_move(paralyzed: bool, frozen: bool) -> (free: bool)
    ensures
        free == (!paralyzed && !frozen),
{
    !paralyzed && !frozen
}

/// A healing object after one tick: its timer advances only while the object is held.
pub open spec fn heal_ticked(row: (Heal, Option<Grabbed>), delta: u64) -> (Heal, Option<Grabbed>) {
    if row.1 is Some {
        (Heal { timer: row.0.timer.ticked(delta), ..row.0 }, row.1)
    } else {
        row
    }
}

/// Advances the timer of every healing object that is held.
pub fn heal_timer_system(objects: &mut Vec<(Heal, Option<Grabbed>)>, delta: u64)
    ensures
        final(objects)@.len() == old(objects)@.len(),
        forall|i: int|
            0 <= i < old(objects)@.len() ==> #[trigger] final(objects)@[i] == heal_ticked(
                old(objects)@[i],
                delta,
            ),
{
    let n = objects.len();
    let mut i: usize = 0;
    while i < n
        invariant
            n == objects@.len(),
            n == old(objects)@.len(),
            i <= n,
            forall|j: int|
                0 <= j < i ==> #[trigger] objects@[j] == heal_ticked(old(objects)@[j], delta),
            forall|j: int| i <= j < n ==> #[trigger] objects@[j] == old(objects)@[j],
        decreases n - i,
    {
        let (mut heal, grabbed) = objects[i];
        if grabbed.is_some() {
            heal.timer.tick(delta);
            objects.set(i, (heal, grabbed));
        }
        i += 1;
    }
}

/// The health rows after the entity `id` was healed by `hp`; an entity without a row
/// leaves them as they are.
pub open spec fn heal_applied(healths: Seq<(EntityId, Health)>, id: EntityId, hp: i32) -> Seq<
    (EntityId, Health),
> {
    match row_of(healths, id) {
        Some(i) => healths.update(
            i,
            (id, Health { hp: healed(healths[i].1.hp as int, hp as int) as i32 }),
        ),
        None => healths,
    }
}

/// The health rows after every held healing object whose timer has just fired healed
/// its holder, one object after the other.
pub open spec fn healed_by(
    objects: Seq<(Heal, Option<Grabbed>)>,
    healths: Seq<(EntityId, Health)>,
) -> Seq<(EntityId, Health)>
    decreases objects.len(),
{
    if objects.len() == 0 {
        healths
    } else {
        let before = healed_by(objects.drop_last(), healths);
        let (heal, grabbed) = objects.last();
        match grabbed {
            Some(holder) => if heal.timer.is_just_finished() {
                heal_applied(before, holder.0, heal.hp)
            } else {
                before
            },
            None => before,
        }
    }
}

/// Lets every held healing object whose timer has just fired heal its holder. A holder
/// that is gone is passed over.
pub fn heal_system(objects: &Vec<(Heal, Option<Grabbed>)>, healths: &mut Vec<(EntityId, Health)>)
    ensures
        final(healths)@ == healed_by(objects@, old(healths)@),
{
    let n = objects.len();
    let mut i: usize = 0;
    while i < n
        invariant
            n == objects@.len(),
            i <= n,
            healths@ == healed_by(objects@.take(i as int), old(healths)@),
        decreases n - i,
    {
        proof {
            assert(objects@.take(i as int + 1).drop_last() =~= objects@.take(i as int));
        }
        let (heal, grabbed) = objects[i];
        match grabbed {
            Some(holder) => {
                if heal.timer.just_finished() {
                    match find_row(healths, holder.0) {
                        Some(k) => {
                            let mut health = healths[k].1;
                            health.heal(heal.hp);
                            healths.set(k, (holder.0, health));
                        },
                        None => {},
                    }
                }
            },
            None => {},
        }
        i += 1;
    }
    proof {
        assert(objects@.take(n as int) =~= objects@);
    }
}

/// Least zoom of the camera, in thousandths: the unwidened view.
pub const BASE_ZOOM: u32 = 1000;

/// The widening that the held object grants, if one that grants any is held.
pub open spec fn held_sight(objects: Seq<(Sight, Option<Grabbed>)>) -> Option<Sight>
    decreases objects.len(),
{
    if objects.len() == 0 {
        None
    } else {
        match held_sight(objects.drop_last()) {
            Some(s) => Some(s),
            None => if objects.last().1 is Some {
                Some(objects.last().0)
            } else {
                None
            },
        }
    }
}

/// The zoom of the camera after one tick, in thousandths. While an object that widens
/// the view is held, the zoom grows by `speed` up to the bound of that object; otherwise
/// it shrinks by `speed` down to the unwidened view.
pub open spec fn zoom_after(zoom: u32, speed: u32, sight: Option<Sight>) -> int {
    match sight {
        Some(s) => if zoom + speed < s.scale {
            zoom + speed
        } else {
            s.scale as int
        },
        None => if zoom - speed > BASE_ZOOM {
            zoom - speed
        } else {
            BASE_ZOOM as int
        },
    }
}

/// Moves the zoom of the camera one step toward the bound that holds now: the bound of
/// the held object that widens the view, or the unwidened view when none is held.
pub fn sight_system(zoom: u32, speed: u32, objects: &Vec<(Sight, Option<Grabbed>)>) -> (next: u32)
    ensures
        next == zoom_after(zoom, speed, held_sight(objects@)),
{
    let mut found: Option<Sight> = None;
    let n = objects.len();
    let mut i: usize = 0;
    while i < n
        invariant
            n == objects@.len(),
            i <= n,
            found == held_sight(objects@.take(i as int)),
        decreases n - i,
    {
        proof {
            assert(objects@.take(i as int + 1).drop_last() =~= objects@.take(i as int));
        }
        if found.is_none() && objects[i].1.is_some() {
            found = Some(objects[i].0);
        }
        i += 1;
    }
    proof {
        assert(objects@.take(n as int) =~= objects@);
    }
    match found {
        Some(s) => {
            if (zoom as u64) + (speed as u64) < s.scale as u64 {
                zoom + speed
            } else {
                s.scale
            }
        },
        None => {
            if zoom > speed && zoom - speed > BASE_ZOOM {
                zoom - speed
            } else {
                BASE_ZOOM
            }
        },
    }
}

/// Two colliders that the physics world reports as a pair, and whether they touch now.
#[derive(Copy, Clone, Debug, PartialEq, Eq, Structural)]
pub struct ContactPair {
    pub collider1: EntityId,
    pub collider2: EntityId,
    pub has_any_active_contact: bool,
}

impl ContactPair {
    /// The member of the pair that is not `entity`.
    pub open spec fn partner_of(self, entity: EntityId) -> EntityId {
        if self.collider1 == entity {
            self.collider2
        } else {
            self.collider1
        }
    }

    /// The member of the pair that is not `entity`.
    pub fn other(&self, entity: EntityId) -> (partner: EntityId)
        ensures
            partner == self.partner_of(entity),
    {
        if self.collider1 == entity {
            self.collider2
        } else {
            self.collider1
        }
    }
}

/// A component that attaches an effect to the entities that its carrier touches.
pub trait Source: Sized {
    type Effect: Copy;

    /// The effect that the source attaches.
    spec fn emitted(&self) -> Self::Effect;

    /// A fresh effect, its time not yet started.
    fn emit(&self) -> (effect: Self::Effect)
        ensures
            effect == self.emitted(),
    ;
}

impl Source for FreezeSource {
    type Effect = Frozen;

    open spec fn emitted(&self) -> Frozen {
        self.effect()
    }

    fn emit(&self) -> (effect: Frozen) {
        self.generate_effect()
    }
}

impl Source for BurnSource {
    type Effect = Burned;

    open spec fn emitted(&self) -> Burned {
        self.effect()
    }

    fn emit(&self) -> (effect: Burned) {
        self.generate_effect()
    }
}

impl Source for ParalyzeSource {
    type Effect = Paralyzed;

    open spec fn emitted(&self) -> Paralyzed {
        self.effect()
    }

    fn emit(&self) -> (effect: Paralyzed) {
        self.generate_effect()
    }
}

/// An entity that carries a source, with the contact pairs that the physics world
/// reports for it on this tick.
#[derive(Clone, Debug)]
pub struct Touching<S> {
    pub entity: EntityId,
    pub source: S,
    pub contacts: Vec<ContactPair>,
}

/// Whether a source may attach its effect to `other`: `other` is among the admitted
/// entities, where the effect admits only some, and is not exempt.
pub open spec fn is_eligible(
    other: EntityId,
    admitted: Option<Seq<EntityId>>,
    exempt: Seq<EntityId>,
) -> bool {
    &&& admitted matches Some(a) ==> a.contains(other)
    &&& !exempt.contains(other)
}

/// The entities that `entity` touches through an active contact and that are eligible,
/// one for each such contact pair, in the order of the pairs.
pub open spec fn touched(
    entity: EntityId,
    contacts: Seq<ContactPair>,
    admitted: Option<Seq<EntityId>>,
    exempt: Seq<EntityId>,
) -> Seq<EntityId>
    decreases contacts.len(),
{
    if contacts.len() == 0 {
        Seq::empty()
    } else {
        let front = touched(entity, contacts.drop_last(), admitted, exempt);
        let pair = contacts.last();
        if pair.has_any_active_contact && is_eligible(pair.partner_of(entity), admitted, exempt) {
            front.push(pair.partner_of(entity))
        } else {
            front
        }
    }
}

/// One attachment of `effect` for each of `targets`.
pub open spec fn attached<E>(targets: Seq<EntityId>, effect: E) -> Seq<(EntityId, E)> {
    Seq::new(targets.len(), |i: int| (targets[i], effect))
}

/// The attachments that the first `n` of `sources` make, source after source.
pub open spec fn attached_upto<S: Source>(
    sources: Seq<Touching<S>>,
    admitted: Option<Seq<EntityId>>,
    exempt: Seq<EntityId>,
    n: nat,
) -> Seq<(EntityId, S::Effect)>
    decreases n,
{
    if n == 0 {
        Seq::empty()
    } else {
        let s = sources[n - 1];
        attached_upto(sources, admitted, exempt, (n - 1) as nat) + attached(
            touched(s.entity, s.contacts@, admitted, exempt),
            s.source.emitted(),
        )
    }
}

/// The entities that carry one of `sources`.
pub open spec fn source_ids<S>(sources: Seq<Touching<S>>) -> Seq<EntityId> {
    Seq::new(sources.len(), |i: int| sources[i].entity)
}

/// The view of an optional list of entities.
pub open spec fn admitted_view(admitted: Option<&Vec<EntityId>>) -> Option<Seq<EntityId>> {
    match admitted {
        Some(a) => Some(a@),
        None => None,
    }
}

/// The eligible entities that `entity` touches through an active contact.
pub fn scan_contacts(
    entity: EntityId,
    contacts: &Vec<ContactPair>,
    admitted: Option<&Vec<EntityId>>,
    exempt: &Vec<EntityId>,
) -> (targets: Vec<EntityId>)
    ensures
        targets@ == touched(entity, contacts@, admitted_view(admitted), exempt@),
{
    let mut targets: Vec<EntityId> = Vec::new();
    let n = contacts.len();
    let mut i: usize = 0;
    while i < n
        invariant
            n == contacts@.len(),
            i <= n,
            targets@ == touched(
                entity,
                contacts@.take(i as int),
                admitted_view(admitted),
                exempt@,
            ),
        decreases n - i,
    {
        proof {
            assert(contacts@.take(i as int + 1).drop_last() =~= contacts@.take(i as int));
        }
        let pair = contacts[i];
        if pair.has_any_active_contact {
            let partner = pair.other(entity);
            let admitted_here = match admitted {
                Some(a) => contains_id(a, partner),
                None => true,
            };
            if admitted_here && !contains_id(exempt, partner) {
                targets.push(partner);
            }
        }
        i += 1;
    }
    proof {
        assert(contacts@.take(n as int) =~= contacts@);
    }
    targets
}

/// Lets every source attach its effect to the eligible entities that its carrier
/// touches. Returns the attachments in the order in which they are made; attaching to an
/// entity that already carries the effect replaces it, so the last one for an entity
/// stands.
pub fn source_system<S: Source>(
    sources: &Vec<Touching<S>>,
    admitted: Option<&Vec<EntityId>>,
    exempt: &Vec<EntityId>,
) -> (attachments: Vec<(EntityId, S::Effect)>)
    ensures
        attachments@ == attached_upto(
            sources@,
            admitted_view(admitted),
            exempt@,
            sources@.len(),
        ),
{
    let mut out: Vec<(EntityId, S::Effect)> = Vec::new();
    let n = sources.len();
    let mut i: usize = 0;
    while i < n
        invariant
            n == sources@.len(),
            i <= n,
            out@ == attached_upto(sources@, admitted_view(admitted), exempt@, i as nat),
        decreases n - i,
    {
        let targets = scan_contacts(sources[i].entity, &sources[i].contacts, admitted, exempt);
        let effect = sources[i].source.emit();
        let ghost before = out@;
        let m = targets.len();
        let mut k: usize = 0;
        while k < m
            invariant
                m == targets@.len(),
                k <= m,
                out@ == before + attached(targets@.take(k as int), effect),
            decreases m - k,
        {
            out.push((targets[k], effect));
            proof {
                assert(out@ =~= before + attached(targets@.take(k as int + 1), effect));
            }
            k += 1;
        }
        proof {
            assert(targets@.take(m as int) =~= targets@);
        }
        i += 1;
    }
    out
}

/// The entities that carry one of `sources`.
pub fn carriers<S>(sources: &Vec<Touching<S>>) -> (ids: Vec<EntityId>)
    ensures
        ids@ == source_ids(sources@),
{
    let mut ids: Vec<EntityId> = Vec::new();
    let n = sources.len();
    let mut i: usize = 0;
    while i < n
        invariant
            n == sources@.len(),
            i <= n,
            ids@.len() == i,
            forall|j: int| 0 <= j < i ==> ids@[j] == sources@[j].entity,
        decreases n - i,
    {
        ids.push(sources[i].entity);
        i += 1;
    }
    proof {
        assert(ids@ =~= source_ids(sources@));
    }
    ids
}

/// No attachment goes to an exempt entity, and where only some are admitted, each goes
/// to one of those.
pub proof fn lemma_attached_eligible<S: Source>(
    sources: Seq<Touching<S>>,
    admitted: Option<Seq<EntityId>>,
    exempt: Seq<EntityId>,
    n: nat,
    k: int,
)
    requires
        0 <= k < attached_upto(sources, admitted, exempt, n).len(),
    ensures
        is_eligible(attached_upto(sources, admitted, exempt, n)[k].0, admitted, exempt),
    decreases n,
{
    if n > 0 {
        let front = attached_upto(sources, admitted, exempt, (n - 1) as nat);
        let s = sources[n - 1];
        if k < front.len() {
            lemma_attached_eligible(sources, admitted, exempt, (n - 1) as nat, k);
        } else {
            lemma_touched_eligible(s.entity, s.contacts@, admitted, exempt, k - front.len());
        }
    }
}

/// Every entity that a scan yields is eligible.
pub proof fn lemma_touched_eligible(
    entity: EntityId,
    contacts: Seq<ContactPair>,
    admitted: Option<Seq<EntityId>>,
    exempt: Seq<EntityId>,
    k: int,
)
    requires
        0 <= k < touched(entity, contacts, admitted, exempt).len(),
    ensures
        is_eligible(touched(entity, contacts, admitted, exempt)[k], admitted, exempt),
    decreases contacts.len(),
{
    if contacts.len() > 0 {
        let front = touched(entity, contacts.drop_last(), admitted, exempt);
        if k < front.len() {
            lemma_touched_eligible(entity, contacts.drop_last(), admitted, exempt, k);
        }
    }
}

/// Lets every freeze source freeze what it touches. Only players and objects, which
/// `frozenable` lists, can be frozen, and an entity that is itself a freeze source
/// never is: two freeze sources do not freeze each other.
pub fn freeze_src_system(sources: &Vec<Touching<FreezeSource>>, frozenable: &Vec<EntityId>) -> (r:
    Vec<(EntityId, Frozen)>)
    ensures
        r@ == attached_upto(
            sources@,
            Some(frozenable@),
            source_ids(sources@),
            sources@.len(),
        ),
        forall|k: int|
            0 <= k < r@.len() ==> !source_ids(sources@).contains((#[trigger] r@[k]).0)
                && frozenable@.contains(r@[k].0),
{
    let exempt = carriers(sources);
    let r = source_system(sources, Some(frozenable), &exempt);
    proof {
        assert forall|k: int| 0 <= k < r@.len() implies !source_ids(sources@).contains(
            (#[trigger] r@[k]).0,
        ) && frozenable@.contains(r@[k].0) by {
            lemma_attached_eligible(
                sources@,
                Some(frozenable@),
                source_ids(sources@),
                sources@.len(),
                k,
            );
        }
    }
    r
}

/// Lets every burn source set fire to what it touches, whatever it is, except an entity
/// that is itself a burn source.
pub fn burn_src_system(sources: &Vec<Touching<BurnSource>>) -> (r: Vec<(EntityId, Burned)>)
    ensures
        r@ == attached_upto(sources@, None, source_ids(sources@), sources@.len()),
        forall|k: int| 0 <= k < r@.len() ==> !source_ids(sources@).contains((#[trigger] r@[k]).0),
{
    let exempt = carriers(sources);
    let r = source_system(sources, None, &exempt);
    proof {
        assert forall|k: int| 0 <= k < r@.len() implies !source_ids(sources@).contains(
            (#[trigger] r@[k]).0,
        ) by {
            lemma_attached_eligible(sources@, None, source_ids(sources@), sources@.len(), k);
        }
    }
    r
}

/// Lets every paralyze source paralyze the players that it touches, which `players`
/// lists. Objects are immune.
pub fn paralyze_src_system(sources: &Vec<Touching<ParalyzeSource>>, players: &Vec<EntityId>) -> (r:
    Vec<(EntityId, Paralyzed)>)
    ensures
        r@ == attached_upto(sources@, Some(players@), Seq::empty(), sources@.len()),
        forall|k: int| 0 <= k < r@.len() ==> players@.contains((#[trigger] r@[k]).0),
{
    let exempt: Vec<EntityId> = Vec::new();
    let r = source_system(sources, Some(players), &exempt);
    proof {
        assert forall|k: int| 0 <= k < r@.len() implies players@.contains(
            (#[trigger] r@[k]).0,
        ) by {
            lemma_attached_eligible(sources@, Some(players@), Seq::empty(), sources@.len(), k);
        }
    }
    r
}

/// The rows of an effect after `effect` was attached to `id`: an entity that carries
/// the effect already gets the new one in place of the old, so its time starts over.
pub open spec fn with_effect<E>(rows: Seq<(EntityId, E)>, id: EntityId, effect: E) -> Seq<
    (EntityId, E),
> {
    match row_of(rows, id) {
        Some(i) => rows.update(i, (id, effect)),
        None => rows.push((id, effect)),
    }
}

/// The rows of an effect after all of `attachments` were made, in order.
pub open spec fn with_effects<E>(rows: Seq<(EntityId, E)>, attachments: Seq<(EntityId, E)>) -> Seq<
    (EntityId, E),
>
    decreases attachments.len(),
{
    if attachments.len() == 0 {
        rows
    } else {
        with_effect(
            with_effects(rows, attachments.drop_last()),
            attachments.last().0,
            attachments.last().1,
        )
    }
}

/// Makes the attachments that a source system returned: each entity gets its effect,
/// in place of the one it may carry already.
pub fn attach_effects<E: Copy>(rows: &mut Vec<(EntityId, E)>, attachments: &Vec<(EntityId, E)>)
    ensures
        final(rows)@ == with_effects(old(rows)@, attachments@),
{
    let n = attachments.len();
    let mut i: usize = 0;
    while i < n
        invariant
            n == attachments@.len(),
            i <= n,
            rows@ == with_effects(old(rows)@, attachments@.take(i as int)),
        decreases n - i,
    {
        proof {
            assert(attachments@.take(i as int + 1).drop_last() =~= attachments@.take(i as int));
        }
        let (id, effect) = attachments[i];
        match find_row(rows, id) {
            Some(k) => {
                rows.set(k, (id, effect));
            },
            None => {
                rows.push((id, effect));
            },
        }
        i += 1;
    }
    proof {
        assert(attachments@.take(n as int) =~= attachments@);
    }
}

/// The effect after a run of ticks, one for each of `deltas`, in order.
pub open spec fn effect_after<T: MagicWithTimer>(effect: T, deltas: Seq<u64>) -> T
    decreases deltas.len(),
{
    if deltas.len() == 0 {
        effect
    } else {
        effect_after(effect, deltas.drop_last()).ticked(deltas.last())
    }
}

/// The clock of an effect runs as the effect is ticked.
pub proof fn lemma_effect_clock<T: MagicWithTimer>(effect: T, deltas: Seq<u64>)
    ensures
        effect_after(effect, deltas).clock() == ticked_all(effect.clock(), deltas),
    decreases deltas.len(),
{
    if deltas.len() > 0 {
        lemma_effect_clock(effect, deltas.drop_last());
        effect_after(effect, deltas.drop_last()).lemma_clock(deltas.last());
    }
}

/// An effect whose clock starts fresh expires on the one tick that first brings the
/// time since it was attached up to its duration: never on an earlier tick, and, since
/// it is taken off on that tick, on no later one.
pub proof fn lemma_effect_ends_on_completion<T: MagicWithTimer>(
    effect: T,
    duration: u64,
    deltas: Seq<u64>,
)
    requires
        effect.clock() == Timer::fresh(duration, false),
        deltas.len() > 0,
    ensures
        effect_after(effect, deltas).expired() <==> total(deltas) >= duration && !(
        deltas.len() > 1 && total(deltas.drop_last()) >= duration),
{
    lemma_effect_clock(effect, deltas);
    effect_after(effect, deltas).lemma_clock(0);
    lemma_one_shot_finishes_once(duration, deltas);
    crate::timer::lemma_one_shot_run(duration, deltas.drop_last());
}

/// The effects that the three sources attach start with a fresh clock over the
/// duration of their source.
pub proof fn lemma_effects_start_fresh(freeze: FreezeSource, burn: BurnSource, paralyze: ParalyzeSource)
    ensures
        freeze.effect().clock() == Timer::fresh(freeze.duration, false),
        burn.effect().clock() == Timer::fresh(burn.duration, false),
        paralyze.effect().clock() == Timer::fresh(paralyze.duration, false),
{
}

/// One tick of the timer system decides the fate of every attached effect: an effect
/// whose time ran out on this tick is taken off and its entity reported, every other
/// one is kept as the tick left it. None is kept beyond its time, none is lost.
pub proof fn lemma_timer_system_fate<T: MagicWithTimer>(
    effects: Seq<(EntityId, T)>,
    delta: u64,
    i: int,
)
    requires
        0 <= i < effects.len(),
    ensures
        effects[i].1.ticked(delta).expired() ==> ended_after(effects, delta).contains(
            effects[i].0,
        ),
        !effects[i].1.ticked(delta).expired() ==> kept_after(effects, delta).contains(
            (effects[i].0, effects[i].1.ticked(delta)),
        ),
        kept_after(effects, delta).len() + ended_after(effects, delta).len() == effects.len(),
        forall|k: int|
            0 <= k < kept_after(effects, delta).len() ==> !(#[trigger] kept_after(
                effects,
                delta,
            )[k]).1.expired(),
    decreases effects.len(),
{
    let front = effects.drop_last();
    let kept = kept_after(effects, delta);
    let ended = ended_after(effects, delta);
    if i < effects.len() - 1 {
        lemma_timer_system_fate(front, delta, i);
        if effects[i].1.ticked(delta).expired() {
            let w = choose|w: int|
                0 <= w < ended_after(front, delta).len() && ended_after(front, delta)[w]
                    == front[i].0;
            assert(ended[w] == effects[i].0);
        } else {
            let e = (effects[i].0, effects[i].1.ticked(delta));
            let w = choose|w: int|
                0 <= w < kept_after(front, delta).len() && kept_after(front, delta)[w] == e;
            assert(kept[w] == e);
        }
    } else {
        if front.len() > 0 {
            lemma_timer_system_fate(front, delta, 0);
        }
        if effects[i].1.ticked(delta).expired() {
            assert(ended[ended.len() - 1] == effects[i].0);
        } else {
            assert(kept[kept.len() - 1] == (effects[i].0, effects[i].1.ticked(delta)));
        }
    }
}

/// Attaching effects never puts one on an exempt entity that carried none: if no row
/// belongs to an exempt entity and no attachment goes to one, no row does afterwards.
/// With the freeze sources as the exempt, this says that no freeze source is ever frozen
/// by what the freeze system attaches.
pub proof fn lemma_attach_spares_exempt<E>(
    rows: Seq<(EntityId, E)>,
    attachments: Seq<(EntityId, E)>,
    exempt: Seq<EntityId>,
)
    requires
        forall|i: int| 0 <= i < rows.len() ==> !exempt.contains((#[trigger] rows[i]).0),
        forall|k: int|
            0 <= k < attachments.len() ==> !exempt.contains((#[trigger] attachments[k]).0),
    ensures
        forall|i: int|
            0 <= i < with_effects(rows, attachments).len() ==> !exempt.contains(
                (#[trigger] with_effects(rows, attachments)[i]).0,
            ),
    decreases attachments.len(),
{
    if attachments.len() > 0 {
        let front = attachments.drop_last();
        assert forall|k: int| 0 <= k < front.len() implies !exempt.contains(
            (#[trigger] front[k]).0,
        ) by {
            assert(front[k] == attachments[k]);
        }
        lemma_attach_spares_exempt(rows, front, exempt);
        let before = with_effects(rows, front);
        let last = attachments.last();
        assert(!exempt.contains(attachments[attachments.len() - 1].0));
        let after = with_effect(before, last.0, last.1);
        assert forall|i: int| 0 <= i < after.len() implies !exempt.contains(
            (#[trigger] after[i]).0,
        ) by {
            match row_of(before, last.0) {
                Some(r) => {
                    if i != r {
                        assert(after[i] == before[i]);
                    }
                },
                None => {
                    if i < before.len() {
                        assert(after[i] == before[i]);
                    }
                },
            }
        }
    }
}

/// Paralysis stops a body once. The pass that follows the attachment stops the body and
/// uses the effect up; a later pass leaves the body whatever velocity it has gained
/// since, as long as the effect is not attached anew. Ticking the effect does not arm
/// it again.
pub proof fn lemma_paralysis_stops_once(
    body: Velocity,
    effect: Paralyzed,
    delta: u64,
    later: Velocity,
)
    ensures
        effect.fresh ==> paralyzed_row((body, effect)).0 == body.halted(),
        !effect.fresh ==> paralyzed_row((body, effect)) == (body, effect),
        !paralyzed_row((body, effect)).1.fresh,
        paralyzed_row((later, paralyzed_row((body, effect)).1.ticked(delta))).0 == later,
        effect.ticked(delta).fresh == effect.fresh,
{
}

} // verus!
