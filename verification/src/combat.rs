//! Combat resolution: contact damage, explosions, and the removal of the
//! dead, in the order in which a tick resolves them.

use crate::component::{
    contains_id, damaged, find_row, is_row_of, row_of, Dmg, EntityId, Grabbed, Health, Velocity,
};
use crate::in_game::Grip;
use crate::magic::Explode;
use vstd::prelude::*;

verus! {

/// Relative speed above which a contact does damage, in thousandths of a unit per second.
pub const CONTACT_SPEED: u64 = 80_000;

/// An event of the physics world about two colliders.
#[derive(Copy, Clone, Debug, PartialEq, Eq, Structural)]
pub enum ContactEvent {
    /// The two began to touch.
    Started(EntityId, EntityId),
    /// The two ceased to touch.
    Stopped(EntityId, EntityId),
}

/// What combat reads and changes of an entity that has health.
#[derive(Copy, Clone, Debug, PartialEq, Eq, Structural)]
pub struct Combatant {
    pub health: Health,
    /// What the entity inflicts on impact, if it inflicts anything.
    pub dmg: Option<Dmg>,
    /// How the entity moves, if it is a body of the physics world.
    pub velocity: Option<Velocity>,
    /// Who holds the entity, if it is held.
    pub grabbed: Option<Grabbed>,
    pub player: bool,
    /// Whether the entity ignores its health: it takes part in contacts, but never
    /// explodes and is never removed.
    pub undead: bool,
}

impl Combatant {
    /// The combatant after `dmg` was taken from its health.
    pub open spec fn hit_by(self, dmg: i32) -> Combatant {
        Combatant { health: Health { hp: damaged(self.health.hp as int, dmg as int) as i32 }, ..self }
    }

    /// Whether the entity is to be removed: it has no hit points left, and it is not
    /// of the undead.
    pub open spec fn is_dying(self) -> bool {
        !self.undead && self.health.is_dead()
    }

    /// Whether the death of the entity empties the hand: the holder died, or what it held.
    pub open spec fn frees_hand(self) -> bool {
        self.is_dying() && (self.player || self.grabbed is Some)
    }

    /// Takes `dmg` from the health.
    pub fn hit(&mut self, dmg: i32)
        ensures
            *final(self) == old(self).hit_by(dmg),
    {
        let mut health = self.health;
        health.damage(dmg);
        self.health = health;
    }
}

/// The square of the relative linear speed of two bodies.
pub open spec fn relative_speed_squared(a: Velocity, b: Velocity) -> int {
    (a.x - b.x) * (a.x - b.x) + (a.y - b.y) * (a.y - b.y)
}

/// Whether two bodies meet fast enough to hurt each other: their relative speed is
/// above the threshold. At the threshold itself, and below it, a contact is harmless.
pub open spec fn is_violent(a: Velocity, b: Velocity) -> bool {
    relative_speed_squared(a, b) > CONTACT_SPEED * CONTACT_SPEED
}

/// Tells whether two bodies meet fast enough to hurt each other.
pub fn violent(a: &Velocity, b: &Velocity) -> (v: bool)
    ensures
        v == is_violent(*a, *b),
{
    let dx: i128 = a.x as i128 - b.x as i128;
    let dy: i128 = a.y as i128 - b.y as i128;
    assert(0 <= dx * dx <= 0x1_0000_0000_0000_0000) by (nonlinear_arith)
        requires
            -0x1_0000_0000 <= dx <= 0x1_0000_0000,
    ;
    assert(0 <= dy * dy <= 0x1_0000_0000_0000_0000) by (nonlinear_arith)
        requires
            -0x1_0000_0000 <= dy <= 0x1_0000_0000,
    ;
    let speed: i128 = CONTACT_SPEED as i128;
    assert(speed * speed == 6_400_000_000) by (nonlinear_arith)
        requires
            speed == 80_000,
    ;
    dx * dx + dy * dy > speed * speed
}

/// What two combatants inflict on each other when they begin to touch: nothing unless
/// both inflict damage, both move as bodies, and they meet violently; then each
/// inflicts its damage on the other.
pub open spec fn exchange(a: Combatant, b: Combatant) -> Option<(i32, i32)> {
    match (a.dmg, a.velocity, b.dmg, b.velocity) {
        (Some(da), Some(va), Some(db), Some(vb)) => if is_violent(va, vb) {
            Some((db.0, da.0))
        } else {
            None
        },
        _ => None,
    }
}

/// Tells what two combatants that begin to touch take from each other, the first of
/// the pair being what the first combatant takes.
pub fn exchanged(a: &Combatant, b: &Combatant) -> (taken: Option<(i32, i32)>)
    ensures
        taken == exchange(*a, *b),
{
    match (a.dmg, a.velocity, b.dmg, b.velocity) {
        (Some(da), Some(va), Some(db), Some(vb)) => {
            if violent(&va, &vb) {
                Some((db.0, da.0))
            } else {
                None
            }
        },
        _ => None,
    }
}

/// The combatants after one contact event. Only the start of a contact between two
/// combatants that are both still there, and that meet violently, changes anything: then
/// each loses what the other inflicts.
pub open spec fn after_contact(q: Seq<(EntityId, Combatant)>, event: ContactEvent) -> Seq<
    (EntityId, Combatant),
> {
    match event {
        ContactEvent::Started(e1, e2) => match (row_of(q, e1), row_of(q, e2)) {
            (Some(i), Some(j)) => match exchange(q[i].1, q[j].1) {
                Some((first, second)) => q.update(i, (e1, q[i].1.hit_by(first))).update(
                    j,
                    (e2, q[j].1.hit_by(second)),
                ),
                None => q,
            },
            _ => q,
        },
        ContactEvent::Stopped(_, _) => q,
    }
}

/// The combatants after all of `events`, taken in order.
pub open spec fn after_contacts(q: Seq<(EntityId, Combatant)>, events: Seq<ContactEvent>) -> Seq<
    (EntityId, Combatant),
>
    decreases events.len(),
{
    if events.len() == 0 {
        q
    } else {
        after_contact(after_contacts(q, events.drop_last()), events.last())
    }
}

/// Resolves one contact event.
pub fn resolve_contact(q: &mut Vec<(EntityId, Combatant)>, event: ContactEvent)
    ensures
        final(q)@ == after_contact(old(q)@, event),
{
    match event {
        ContactEvent::Started(e1, e2) => {
            let first = find_row(q, e1);
            let second = find_row(q, e2);
            match (first, second) {
                (Some(i), Some(j)) => {
                    let mut a = q[i].1;
                    let mut b = q[j].1;
                    match exchanged(&a, &b) {
                        Some((from_b, from_a)) => {
                            a.hit(from_b);
                            b.hit(from_a);
                            q.set(i, (e1, a));
                            q.set(j, (e2, b));
                        },
                        None => {},
                    }
                },
                _ => {},
            }
        },
        ContactEvent::Stopped(_, _) => {},
    }
}

/// Resolves the contact events of one tick, in order. An event that names an entity
/// that is not among the combatants, because it is gone or never was one, is passed over.
pub fn collision_detection(events: &Vec<ContactEvent>, q: &mut Vec<(EntityId, Combatant)>)
    ensures
        final(q)@ == after_contacts(old(q)@, events@),
{
    let n = events.len();
    let mut k: usize = 0;
    while k < n
        invariant
            n == events@.len(),
            k <= n,
            q@ == after_contacts(old(q)@, events@.take(k as int)),
        decreases n - k,
    {
        proof {
            assert(events@.take(k as int + 1).drop_last() =~= events@.take(k as int));
        }
        resolve_contact(q, events[k]);
        k += 1;
    }
    proof {
        assert(events@.take(n as int) =~= events@);
    }
}

/// A carrier of `Explode`, with the entities whose shape overlaps the circle of its
/// explosion, as the physics world finds them.
#[derive(Clone, Debug)]
pub struct Blast {
    pub entity: EntityId,
    pub explode: Explode,
    pub hits: Vec<EntityId>,
}

/// Whether the entity of row `i` takes damage from the explosion of `exploder` that
/// reaches the entities `hits`: it is one of them, and it is not the exploder itself.
pub open spec fn is_blasted(
    q: Seq<(EntityId, Combatant)>,
    i: int,
    exploder: EntityId,
    hits: Seq<EntityId>,
) -> bool {
    q[i].0 != exploder && hits.contains(q[i].0)
}

/// A row after an explosion of damage `dmg`.
pub open spec fn blasted_row(
    q: Seq<(EntityId, Combatant)>,
    i: int,
    exploder: EntityId,
    dmg: i32,
    hits: Seq<EntityId>,
) -> (EntityId, Combatant) {
    if is_blasted(q, i, exploder, hits) {
        (q[i].0, q[i].1.hit_by(dmg))
    } else {
        q[i]
    }
}

/// The combatants after the explosion of `exploder`.
pub open spec fn blasted(
    q: Seq<(EntityId, Combatant)>,
    exploder: EntityId,
    dmg: i32,
    hits: Seq<EntityId>,
) -> Seq<(EntityId, Combatant)> {
    Seq::new(q.len(), |i: int| blasted_row(q, i, exploder, dmg, hits))
}

/// Whether `entity` is due to explode: it is among the combatants and dying.
pub open spec fn is_due(q: Seq<(EntityId, Combatant)>, entity: EntityId) -> bool {
    match row_of(q, entity) {
        Some(i) => q[i].1.is_dying(),
        None => false,
    }
}

/// The combatants after one carrier of `Explode` had its turn: if it is due, everything
/// that its explosion reaches is harmed; if not, nothing happens.
pub open spec fn after_blast(q: Seq<(EntityId, Combatant)>, blast: Blast) -> Seq<
    (EntityId, Combatant),
> {
    if is_due(q, blast.entity) {
        blasted(q, blast.entity, blast.explode.dmg, blast.hits@)
    } else {
        q
    }
}

/// The combatants after every carrier of `Explode` had its turn, in order. A carrier
/// that an earlier explosion killed explodes in its own turn.
pub open spec fn after_blasts(q: Seq<(EntityId, Combatant)>, blasts: Seq<Blast>) -> Seq<
    (EntityId, Combatant),
>
    decreases blasts.len(),
{
    if blasts.len() == 0 {
        q
    } else {
        after_blast(after_blasts(q, blasts.drop_last()), blasts.last())
    }
}

/// Resolves one explosion: every combatant that the explosion reaches, the exploder
/// itself excepted, loses `dmg` hit points, once.
pub fn explode(
    exploder: EntityId,
    explode: &Explode,
    hits: &Vec<EntityId>,
    q: &mut Vec<(EntityId, Combatant)>,
)
    ensures
        final(q)@ == blasted(old(q)@, exploder, explode.dmg, hits@),
{
    let n = q.len();
    let mut i: usize = 0;
    while i < n
        invariant
            n == q@.len(),
            n == old(q)@.len(),
            i <= n,
            forall|j: int|
                0 <= j < i ==> #[trigger] q@[j] == blasted_row(
                    old(q)@,
                    j,
                    exploder,
                    explode.dmg,
                    hits@,
                ),
            forall|j: int| i <= j < n ==> #[trigger] q@[j] == old(q)@[j],
        decreases n - i,
    {
        let (id, mut c) = q[i];
        if id != exploder && contains_id(hits, id) {
            c.hit(explode.dmg);
            q.set(i, (id, c));
        }
        i += 1;
    }
    proof {
        assert(q@ =~= blasted(old(q)@, exploder, explode.dmg, hits@));
    }
}

/// The carriers of `Explode` that explode on their turn, in order.
pub open spec fn exploded(q: Seq<(EntityId, Combatant)>, blasts: Seq<Blast>) -> Seq<EntityId>
    decreases blasts.len(),
{
    if blasts.len() == 0 {
        Seq::empty()
    } else {
        let front = exploded(q, blasts.drop_last());
        if is_due(after_blasts(q, blasts.drop_last()), blasts.last().entity) {
            front.push(blasts.last().entity)
        } else {
            front
        }
    }
}

/// Lets every carrier of `Explode` that is dying explode, one after the other. This
/// runs after contact damage and before the dead are removed, so that a carrier is
/// still there when its health is read. Returns the carriers that exploded.
pub fn explode_system(blasts: &Vec<Blast>, q: &mut Vec<(EntityId, Combatant)>) -> (fired: Vec<
    EntityId,
>)
    ensures
        final(q)@ == after_blasts(old(q)@, blasts@),
        fired@ == exploded(old(q)@, blasts@),
{
    let mut fired: Vec<EntityId> = Vec::new();
    let n = blasts.len();
    let mut k: usize = 0;
    while k < n
        invariant
            n == blasts@.len(),
            k <= n,
            q@ == after_blasts(old(q)@, blasts@.take(k as int)),
            fired@ == exploded(old(q)@, blasts@.take(k as int)),
        decreases n - k,
    {
        proof {
            assert(blasts@.take(k as int + 1).drop_last() =~= blasts@.take(k as int));
        }
        let due = match find_row(q, blasts[k].entity) {
            Some(i) => !q[i].1.undead && q[i].1.health.dead(),
            None => false,
        };
        if due {
            explode(blasts[k].entity, &blasts[k].explode, &blasts[k].hits, q);
            fired.push(blasts[k].entity);
        }
        k += 1;
    }
    proof {
        assert(blasts@.take(n as int) =~= blasts@);
    }
    fired
}

/// An entity that died on this tick and is to be removed from the world.
#[derive(Copy, Clone, Debug, PartialEq, Eq, Structural)]
pub struct Death {
    pub entity: EntityId,
    /// Whether the player died.
    pub player: bool,
    /// Whether the joints of the entity are to be removed with it.
    pub unjoin: bool,
}

/// The deaths among `q`, in row order.
pub open spec fn deaths_of(q: Seq<(EntityId, Combatant)>) -> Seq<Death>
    decreases q.len(),
{
    if q.len() == 0 {
        Seq::empty()
    } else {
        let front = deaths_of(q.drop_last());
        let (entity, c) = q.last();
        if c.is_dying() {
            front.push(Death { entity, player: c.player, unjoin: c.frees_hand() })
        } else {
            front
        }
    }
}

/// Whether some death among `q` empties the hand.
pub open spec fn any_frees_hand(q: Seq<(EntityId, Combatant)>) -> bool {
    exists|i: int| 0 <= i < q.len() && (#[trigger] q[i]).1.frees_hand()
}

/// Finds the entities that have died and lets go of the held object if the player or
/// the held object is among them. Returns the dead for the world to remove.
pub fn despawn_dead_entities(q: &Vec<(EntityId, Combatant)>, grip: &mut Grip) -> (dead: Vec<Death>)
    ensures
        dead@ == deaths_of(q@),
        final(grip).player == old(grip).player,
        any_frees_hand(q@) ==> final(grip).is_empty(),
        !any_frees_hand(q@) ==> final(grip)@ == old(grip)@,
        old(grip).wf() ==> final(grip).wf(),
{
    let mut dead: Vec<Death> = Vec::new();
    let n = q.len();
    let mut i: usize = 0;
    let mut freed = false;
    while i < n
        invariant
            n == q@.len(),
            i <= n,
            dead@ == deaths_of(q@.take(i as int)),
            freed == any_frees_hand(q@.take(i as int)),
            grip.player == old(grip).player,
            freed ==> grip.is_empty(),
            !freed ==> grip@ == old(grip)@,
            old(grip).wf() ==> grip.wf(),
        decreases n - i,
    {
        proof {
            assert(q@.take(i as int + 1).drop_last() =~= q@.take(i as int));
        }
        let (entity, c) = q[i];
        let ghost before = any_frees_hand(q@.take(i as int));
        if !c.undead && c.health.dead() {
            let unjoin = c.player || c.grabbed.is_some();
            if unjoin {
                grip.release();
                freed = true;
            }
            dead.push(Death { entity, player: c.player, unjoin });
        }
        proof {
            let now = q@.take(i as int + 1);
            let earlier = q@.take(i as int);
            if c.frees_hand() {
                assert(now[i as int].1.frees_hand());
            } else if any_frees_hand(now) {
                let w = choose|w: int| 0 <= w < now.len() && (#[trigger] now[w]).1.frees_hand();
                assert(earlier[w].1.frees_hand());
            }
            if before {
                let w = choose|w: int|
                    0 <= w < earlier.len() && (#[trigger] earlier[w]).1.frees_hand();
                assert(now[w].1.frees_hand());
            }
        }
        i += 1;
    }
    proof {
        assert(q@.take(n as int) =~= q@);
    }
    dead
}

/// The combatants as the combat of one tick leaves them, before the dead are removed:
/// contact damage first, then the explosions.
pub open spec fn after_combat(
    q: Seq<(EntityId, Combatant)>,
    events: Seq<ContactEvent>,
    blasts: Seq<Blast>,
) -> Seq<(EntityId, Combatant)> {
    after_blasts(after_contacts(q, events), blasts)
}

/// What the combat of one tick tells the world: who exploded, and who is dead.
#[derive(Clone, Debug)]
pub struct Outcome {
    /// The carriers of `Explode` that exploded, in order.
    pub exploded: Vec<EntityId>,
    /// The entities to remove from the world.
    pub dead: Vec<Death>,
}

/// Resolves the combat of one tick in its order: contact damage, then the explosions
/// of the carriers that are dying by then, then the removal of the dead. The combatants
/// are left as they were when the dead were found, the dead still among them.
pub fn combat_system(
    events: &Vec<ContactEvent>,
    blasts: &Vec<Blast>,
    q: &mut Vec<(EntityId, Combatant)>,
    grip: &mut Grip,
) -> (outcome: Outcome)
    ensures
        final(q)@ == after_combat(old(q)@, events@, blasts@),
        outcome.exploded@ == exploded(after_contacts(old(q)@, events@), blasts@),
        outcome.dead@ == deaths_of(final(q)@),
        final(grip).player == old(grip).player,
        any_frees_hand(final(q)@) ==> final(grip).is_empty(),
        !any_frees_hand(final(q)@) ==> final(grip)@ == old(grip)@,
        old(grip).wf() ==> final(grip).wf(),
{
    collision_detection(events, q);
    let exploded = explode_system(blasts, q);
    let dead = despawn_dead_entities(q, grip);
    Outcome { exploded, dead }
}

/// Contact damage is gated by speed. Where two different combatants that are both still
/// there begin to touch: unless both inflict damage and move, and their relative speed
/// is above the threshold, nothing changes at all; otherwise each loses what the other
/// inflicts, all of it unless its health would leave the range of `i32`, and no third
/// combatant is touched.
pub proof fn lemma_contact_damage(q: Seq<(EntityId, Combatant)>, e1: EntityId, e2: EntityId)
    requires
        row_of(q, e1) is Some,
        row_of(q, e2) is Some,
        e1 != e2,
    ensures
        ({
            let i = row_of(q, e1).unwrap();
            let j = row_of(q, e2).unwrap();
            let a = q[i].1;
            let b = q[j].1;
            let after = after_contact(q, ContactEvent::Started(e1, e2));
            &&& i != j
            &&& after.len() == q.len()
            &&& exchange(a, b) is None ==> after == q
            &&& exchange(a, b) is Some ==> {
                &&& after[i].1 == a.hit_by(b.dmg.unwrap().0)
                &&& after[j].1 == b.hit_by(a.dmg.unwrap().0)
                &&& i32::MIN <= a.health.hp - b.dmg.unwrap().0 <= i32::MAX
                    ==> after[i].1.health.hp == a.health.hp - b.dmg.unwrap().0
                &&& i32::MIN <= b.health.hp - a.dmg.unwrap().0 <= i32::MAX
                    ==> after[j].1.health.hp == b.health.hp - a.dmg.unwrap().0
                &&& forall|k: int| 0 <= k < q.len() && k != i && k != j ==> after[k] == q[k]
            }
        }),
{
    lemma_row_found(q, e1);
    lemma_row_found(q, e2);
}

/// Two bodies that both inflict damage exchange it exactly if their relative speed is
/// above the threshold.
pub proof fn lemma_exchange_gate(a: Combatant, b: Combatant)
    requires
        a.dmg is Some,
        a.velocity is Some,
        b.dmg is Some,
        b.velocity is Some,
    ensures
        relative_speed_squared(a.velocity.unwrap(), b.velocity.unwrap()) <= CONTACT_SPEED
            * CONTACT_SPEED ==> exchange(a, b) is None,
        relative_speed_squared(a.velocity.unwrap(), b.velocity.unwrap()) > CONTACT_SPEED
            * CONTACT_SPEED ==> exchange(a, b) == Some((b.dmg.unwrap().0, a.dmg.unwrap().0)),
{
}

/// The row that `row_of` gives is a row of the entity.
pub proof fn lemma_row_found<T>(q: Seq<(EntityId, T)>, id: EntityId)
    requires
        row_of(q, id) is Some,
    ensures
        is_row_of(q, id, row_of(q, id).unwrap()),
{
}

/// An event about an entity that is not among the combatants changes nothing, nor does
/// the end of a contact.
pub proof fn lemma_stale_contact(q: Seq<(EntityId, Combatant)>, event: ContactEvent)
    ensures
        event matches ContactEvent::Started(e1, e2) && (row_of(q, e1) is None || row_of(q, e2)
            is None) ==> after_contact(q, event) == q,
        event is Stopped ==> after_contact(q, event) == q,
{
}

/// An explosion harms exactly those that it reaches: the exploder itself and every
/// entity out of reach are left as they were, and every other entity within reach loses
/// the damage of the explosion, all of it unless its health would leave the range of
/// `i32`.
pub proof fn lemma_explosion_reach(
    q: Seq<(EntityId, Combatant)>,
    i: int,
    exploder: EntityId,
    dmg: i32,
    hits: Seq<EntityId>,
)
    requires
        0 <= i < q.len(),
    ensures
        q[i].0 == exploder ==> blasted(q, exploder, dmg, hits)[i] == q[i],
        !hits.contains(q[i].0) ==> blasted(q, exploder, dmg, hits)[i] == q[i],
        q[i].0 != exploder && hits.contains(q[i].0) ==> blasted(q, exploder, dmg, hits)[i] == (
            q[i].0,
            q[i].1.hit_by(dmg),
        ),
        q[i].0 != exploder && hits.contains(q[i].0) && i32::MIN <= q[i].1.health.hp - dmg
            <= i32::MAX ==> blasted(q, exploder, dmg, hits)[i].1.health.hp == q[i].1.health.hp
            - dmg,
{
}

/// Every combatant that is dying when the dead are found is among the dead.
pub proof fn lemma_dying_is_removed(q: Seq<(EntityId, Combatant)>, i: int)
    requires
        0 <= i < q.len(),
        q[i].1.is_dying(),
    ensures
        deaths_of(q).contains(
            Death { entity: q[i].0, player: q[i].1.player, unjoin: q[i].1.frees_hand() },
        ),
    decreases q.len(),
{
    let front = q.drop_last();
    let d = deaths_of(q);
    let e = Death { entity: q[i].0, player: q[i].1.player, unjoin: q[i].1.frees_hand() };
    if i < q.len() - 1 {
        lemma_dying_is_removed(front, i);
        let w = choose|w: int| 0 <= w < deaths_of(front).len() && deaths_of(front)[w] == e;
        assert(d[w] == e);
    } else {
        assert(d[d.len() - 1] == e);
    }
}

/// None is among the dead but a combatant that was dying when the dead were found.
pub proof fn lemma_removed_was_dying(q: Seq<(EntityId, Combatant)>, k: int)
    requires
        0 <= k < deaths_of(q).len(),
    ensures
        exists|j: int|
            0 <= j < q.len() && (#[trigger] q[j]).1.is_dying() && q[j].0 == deaths_of(
                q,
            )[k].entity,
    decreases q.len(),
{
    let front = q.drop_last();
    if k < deaths_of(front).len() {
        lemma_removed_was_dying(front, k);
        let j = choose|j: int|
            0 <= j < front.len() && (#[trigger] front[j]).1.is_dying() && front[j].0
                == deaths_of(front)[k].entity;
        assert(q[j] == front[j]);
    } else {
        assert(q[q.len() - 1].1.is_dying());
    }
}

/// Whether two row lists hold the same entities in the same rows, and differ at most
/// in the health of some.
pub open spec fn same_but_health(a: Seq<(EntityId, Combatant)>, b: Seq<(EntityId, Combatant)>)
    -> bool {
    &&& a.len() == b.len()
    &&& forall|i: int|
        0 <= i < a.len() ==> (#[trigger] a[i]).0 == b[i].0 && a[i].1 == (Combatant {
            health: a[i].1.health,
            ..b[i].1
        })
}

/// A contact event removes no combatant and changes nothing of any but its health.
pub proof fn lemma_contact_keeps_rows(q: Seq<(EntityId, Combatant)>, event: ContactEvent)
    ensures
        same_but_health(after_contact(q, event), q),
{
    match event {
        ContactEvent::Started(e1, e2) => {
            if row_of(q, e1) is Some && row_of(q, e2) is Some {
                lemma_row_found(q, e1);
                lemma_row_found(q, e2);
            }
        },
        ContactEvent::Stopped(_, _) => {},
    }
}

/// The combat of a tick removes no combatant and changes nothing of any but its
/// health. Every carrier of `Explode` is therefore still among the combatants when its
/// turn to explode comes, and the dead are found only when all explosions are resolved.
pub proof fn lemma_combat_keeps_rows(
    q: Seq<(EntityId, Combatant)>,
    events: Seq<ContactEvent>,
    blasts: Seq<Blast>,
)
    ensures
        same_but_health(after_contacts(q, events), q),
        same_but_health(after_combat(q, events, blasts), q),
    decreases blasts.len(), events.len(),
{
    if blasts.len() > 0 {
        lemma_combat_keeps_rows(q, events, blasts.drop_last());
        let before = after_blasts(after_contacts(q, events), blasts.drop_last());
        let after = after_blast(before, blasts.last());
        assert(same_but_health(after, before));
    } else if events.len() > 0 {
        lemma_combat_keeps_rows(q, events.drop_last(), blasts);
        lemma_contact_keeps_rows(after_contacts(q, events.drop_last()), events.last());
    }
}

} // verus!
