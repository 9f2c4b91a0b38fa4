use shapecraft::combat::{
    collision_detection, combat_system, despawn_dead_entities, exchanged, explode, explode_system,
    resolve_contact, violent, Blast, Combatant, ContactEvent, Death, CONTACT_SPEED,
};
use shapecraft::component::{Dmg, Grabbed, Health, Velocity};
use shapecraft::in_game::Grip;
use shapecraft::magic::Explode;

fn body(hp: i32, dmg: i32, x: i32, y: i32) -> Combatant {
    Combatant {
        health: Health::new(hp),
        dmg: Some(Dmg(dmg)),
        velocity: Some(Velocity { x, y, angvel: 0 }),
        grabbed: None,
        player: false,
        undead: false,
    }
}

fn hp(q: &Vec<(u64, Combatant)>) -> Vec<i32> {
    q.iter().map(|r| r.1.health.hp).collect()
}

#[test]
fn contact_below_the_threshold_is_harmless() {
    let mut q = vec![(1u64, body(10, 3, 79_999, 0)), (2u64, body(20, 4, 0, 0))];
    let before = q.clone();
    collision_detection(&vec![ContactEvent::Started(1, 2)], &mut q);
    assert_eq!(q, before);
}

#[test]
fn contact_at_the_threshold_is_harmless() {
    let mut q = vec![(1u64, body(10, 3, 48_000, 0)), (2u64, body(20, 4, 0, 64_000))];
    collision_detection(&vec![ContactEvent::Started(1, 2)], &mut q);
    assert_eq!(hp(&q), vec![10, 20]);
}

#[test]
fn contact_above_the_threshold_hurts_both_by_the_damage_of_the_other() {
    let mut q = vec![
        (1u64, body(10, 3, 40_000, 0)),
        (2u64, body(20, 4, -40_001, 0)),
        (3u64, body(30, 5, 0, 0)),
    ];
    collision_detection(&vec![ContactEvent::Started(1, 2)], &mut q);
    assert_eq!(hp(&q), vec![6, 17, 30]);
    assert_eq!(q[0].1.velocity, Some(Velocity { x: 40_000, y: 0, angvel: 0 }));
}

#[test]
fn speed_is_measured_between_the_two() {
    assert_eq!(CONTACT_SPEED, 80_000);
    let fast = Velocity { x: 1_000_000, y: 1_000_000, angvel: 0 };
    let also = Velocity { x: 1_000_000, y: 920_000, angvel: 9_000_000 };
    assert!(!violent(&fast, &also));
    let away = Velocity { x: 1_000_000, y: 919_999, angvel: 0 };
    assert!(violent(&fast, &away));
    let min = Velocity { x: i32::MIN, y: i32::MIN, angvel: 0 };
    let max = Velocity { x: i32::MAX, y: i32::MAX, angvel: 0 };
    assert!(violent(&min, &max));
    assert!(!violent(&min, &min));
}

#[test]
fn contacts_are_resolved_in_order() {
    let mut q = vec![(1u64, body(10, 3, 90_000, 0)), (2u64, body(20, 4, 0, 0))];
    let events = vec![
        ContactEvent::Started(1, 2),
        ContactEvent::Stopped(1, 2),
        ContactEvent::Started(2, 1),
    ];
    collision_detection(&events, &mut q);
    assert_eq!(hp(&q), vec![2, 14]);
}

#[test]
fn contact_with_a_missing_entity_is_passed_over() {
    let mut q = vec![(1u64, body(10, 3, 90_000, 0))];
    let events = vec![
        ContactEvent::Started(1, 2),
        ContactEvent::Started(2, 1),
        ContactEvent::Started(8, 9),
        ContactEvent::Started(1, 1),
    ];
    collision_detection(&events, &mut q);
    assert_eq!(hp(&q), vec![10]);
    collision_detection(&vec![], &mut q);
    assert_eq!(hp(&q), vec![10]);
}

#[test]
fn contact_needs_damage_and_velocity_on_both_sides() {
    let mut still = body(10, 3, 0, 0);
    still.velocity = None;
    let mut harmless = body(10, 3, 0, 0);
    harmless.dmg = None;
    let fast = body(20, 4, 90_000, 0);
    assert_eq!(exchanged(&fast, &still), None);
    assert_eq!(exchanged(&harmless, &fast), None);
    assert_eq!(exchanged(&fast, &body(1, 7, 0, 0)), Some((7, 4)));
    let mut q = vec![(1u64, fast), (2u64, still)];
    resolve_contact(&mut q, ContactEvent::Started(1, 2));
    assert_eq!(hp(&q), vec![20, 10]);
}

#[test]
fn walls_hurt_and_are_not_hurt_to_death() {
    let mut wall = body(0, 1, 0, 0);
    wall.undead = true;
    let mut q = vec![(1u64, wall), (2u64, body(2, 1, 0, 90_000))];
    let mut grip = Grip::new(50);
    let outcome = combat_system(&vec![ContactEvent::Started(2, 1)], &vec![], &mut q, &mut grip);
    assert_eq!(hp(&q), vec![-1, 1]);
    assert!(outcome.dead.is_empty());
    assert!(outcome.exploded.is_empty());
}

#[test]
fn explosion_harms_all_within_reach_but_the_exploder() {
    let mut q = vec![
        (1u64, body(0, 1, 0, 0)),
        (2u64, body(30, 1, 0, 0)),
        (3u64, body(30, 1, 0, 0)),
        (4u64, body(5, 1, 0, 0)),
    ];
    explode(1, &Explode::new(20_000, 20), &vec![4, 1, 2, 2, 77], &mut q);
    assert_eq!(hp(&q), vec![0, 10, 30, -15]);
}

#[test]
fn only_the_dying_explode() {
    let mut q = vec![(1u64, body(1, 1, 0, 0)), (2u64, body(30, 1, 0, 0))];
    let blasts = vec![
        Blast { entity: 1, explode: Explode::new(20_000, 20), hits: vec![1, 2] },
        Blast { entity: 9, explode: Explode::new(20_000, 20), hits: vec![1, 2] },
    ];
    assert!(explode_system(&blasts, &mut q).is_empty());
    assert_eq!(hp(&q), vec![1, 30]);
    q[0].1.health.hp = 0;
    assert_eq!(explode_system(&blasts, &mut q), vec![1]);
    assert_eq!(hp(&q), vec![0, 10]);
    q[0].1.undead = true;
    assert!(explode_system(&blasts, &mut q).is_empty());
    assert_eq!(hp(&q), vec![0, 10]);
}

#[test]
fn an_explosion_can_set_off_the_next() {
    let mut q = vec![
        (1u64, body(0, 1, 0, 0)),
        (2u64, body(15, 1, 0, 0)),
        (3u64, body(50, 1, 0, 0)),
    ];
    let blasts = vec![
        Blast { entity: 1, explode: Explode::new(20_000, 20), hits: vec![2] },
        Blast { entity: 2, explode: Explode::new(20_000, 7), hits: vec![1, 2, 3] },
    ];
    assert_eq!(explode_system(&blasts, &mut q), vec![1, 2]);
    assert_eq!(hp(&q), vec![-7, -5, 43]);
    let mut r = vec![
        (1u64, body(0, 1, 0, 0)),
        (2u64, body(15, 1, 0, 0)),
        (3u64, body(50, 1, 0, 0)),
    ];
    let reversed = vec![blasts[1].clone(), blasts[0].clone()];
    assert_eq!(explode_system(&reversed, &mut r), vec![1]);
    assert_eq!(hp(&r), vec![0, -5, 50]);
}

#[test]
fn the_dead_are_found_and_the_hand_is_emptied() {
    let mut held = body(0, 1, 0, 0);
    held.grabbed = Some(Grabbed(50));
    let mut wall = body(0, 1, 0, 0);
    wall.undead = true;
    let q = vec![(1u64, body(3, 1, 0, 0)), (2u64, held), (3u64, wall), (4u64, body(-4, 1, 0, 0))];
    let mut grip = Grip::new(50);
    grip.attach(2, 4000, 7000);
    let dead = despawn_dead_entities(&q, &mut grip);
    assert_eq!(
        dead,
        vec![
            Death { entity: 2, player: false, unjoin: true },
            Death { entity: 4, player: false, unjoin: false },
        ]
    );
    assert_eq!(grip.in_hand.entity, None);
    assert!(grip.joints.is_empty());
    assert!(grip.grabbed.is_empty());
}

#[test]
fn the_death_of_the_player_empties_the_hand() {
    let mut player = body(0, 1, 0, 0);
    player.player = true;
    let q = vec![(50u64, player), (2u64, body(9, 1, 0, 0))];
    let mut grip = Grip::new(50);
    grip.attach(2, 4000, 7000);
    let dead = despawn_dead_entities(&q, &mut grip);
    assert_eq!(dead, vec![Death { entity: 50, player: true, unjoin: true }]);
    assert_eq!(grip.in_hand.entity, None);
    assert!(grip.joints.is_empty());
}

#[test]
fn other_deaths_leave_the_hand() {
    let q = vec![(1u64, body(0, 1, 0, 0)), (2u64, body(9, 1, 0, 0))];
    let mut grip = Grip::new(50);
    grip.attach(2, 4000, 7000);
    let dead = despawn_dead_entities(&q, &mut grip);
    assert_eq!(dead.len(), 1);
    assert_eq!(grip.in_hand.entity, Some(2));
    assert_eq!(grip.joints.len(), 1);
}

#[test]
fn combat_runs_contacts_then_explosions_then_removal() {
    let mut q = vec![
        (1u64, body(2, 1, 90_000, 0)),
        (2u64, body(3, 2, 0, 0)),
        (3u64, body(20, 1, 0, 0)),
    ];
    let events = vec![ContactEvent::Started(1, 2)];
    let blasts = vec![Blast { entity: 1, explode: Explode::new(20_000, 20), hits: vec![1, 2, 3] }];
    let mut grip = Grip::new(50);
    let outcome = combat_system(&events, &blasts, &mut q, &mut grip);
    assert_eq!(hp(&q), vec![0, -18, 0]);
    assert_eq!(q.len(), 3);
    assert_eq!(outcome.exploded, vec![1]);
    assert_eq!(
        outcome.dead,
        vec![
            Death { entity: 1, player: false, unjoin: false },
            Death { entity: 2, player: false, unjoin: false },
            Death { entity: 3, player: false, unjoin: false },
        ]
    );
}
