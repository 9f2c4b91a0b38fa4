use shapecraft::component::{Grabbed, Health, Velocity};
use shapecraft::magic::{
    attach_effects, burn_src_system, burned_system, can_move, freeze_src_system, frozen_system,
    heal_system, heal_timer_system, magic_timer_system, paralyze_src_system, paralyzed_system,
    scan_contacts, sight_system, BurnSource, Burned, ContactPair, FreezeSource, Frozen, Heal,
    MagicWithTimer, ParalyzeSource, Paralyzed, Sight, Touching,
};
use shapecraft::timer::Timer;

fn timer(elapsed: u64, duration: u64, repeating: bool, finished: bool, times: u32) -> Timer {
    Timer { elapsed, duration, repeating, finished, times_finished: times }
}

fn pair(a: u64, b: u64, active: bool) -> ContactPair {
    ContactPair { collider1: a, collider2: b, has_any_active_contact: active }
}

#[test]
fn one_shot_timer_finishes_once() {
    let mut t = Timer::new(10, false);
    t.tick(4);
    assert_eq!(t, timer(4, 10, false, false, 0));
    assert!(!t.finished());
    assert!(!t.just_finished());
    t.tick(6);
    assert_eq!(t, timer(10, 10, false, true, 1));
    assert!(t.finished());
    assert!(t.just_finished());
    t.tick(50);
    assert_eq!(t, timer(10, 10, false, true, 0));
    assert!(t.finished());
    assert!(!t.just_finished());
}

#[test]
fn one_shot_timer_stops_at_its_duration() {
    let mut t = Timer::new(10, false);
    t.tick(500);
    assert_eq!(t, timer(10, 10, false, true, 1));
}

#[test]
fn repeating_timer_keeps_the_remainder() {
    let mut t = Timer::new(10, true);
    t.tick(9);
    assert_eq!(t, timer(9, 10, true, false, 0));
    t.tick(1);
    assert_eq!(t, timer(0, 10, true, true, 1));
    t.tick(25);
    assert_eq!(t, timer(5, 10, true, true, 2));
    t.tick(1);
    assert_eq!(t, timer(6, 10, true, false, 0));
}

#[test]
fn timers_at_the_limits() {
    let mut zero = Timer::new(0, true);
    zero.tick(0);
    assert_eq!(zero, timer(0, 0, true, true, u32::MAX));
    let mut instant = Timer::new(0, false);
    instant.tick(0);
    assert_eq!(instant, timer(0, 0, false, true, 1));
    let mut fast = Timer::new(1, true);
    fast.tick(u64::MAX);
    assert_eq!(fast, timer(0, 1, true, true, u32::MAX));
    let mut long = timer(u64::MAX - 1, u64::MAX, false, false, 0);
    long.tick(u64::MAX);
    assert_eq!(long, timer(u64::MAX, u64::MAX, false, true, 1));
    let mut wrap = timer(u64::MAX - 1, u64::MAX, true, false, 0);
    wrap.tick(u64::MAX);
    assert_eq!(wrap, timer(u64::MAX - 1, u64::MAX, true, true, 1));
}

#[test]
fn timer_from_millis_and_reset() {
    assert_eq!(Timer::from_millis(200, true), timer(0, 200_000_000, true, false, 0));
    assert_eq!(Timer::from_millis(u64::MAX, false).duration, u64::MAX);
    let mut t = Timer::new(10, false);
    t.tick(20);
    t.reset();
    assert_eq!(t, timer(0, 10, false, false, 0));
}

#[test]
fn sources_generate_fresh_effects() {
    assert_eq!(
        FreezeSource::new(970, 2_000).generate_effect(),
        Frozen { scale: 970, duration: timer(0, 2_000, false, false, 0) }
    );
    assert_eq!(
        BurnSource::new(3, 5_000, 500).generate_effect(),
        Burned {
            dmg: 3,
            duration: timer(0, 5_000, false, false, 0),
            interval: timer(0, 500, true, false, 0),
        }
    );
    assert_eq!(
        ParalyzeSource::new(1_000).generate_effect(),
        Paralyzed { duration: timer(0, 1_000, false, false, 0), fresh: true }
    );
    assert_eq!(Heal::new(-2, 100), Heal { hp: -2, timer: timer(0, 100, true, false, 0) });
    assert_eq!(Sight::new(1500).scale, 1500);
}

#[test]
fn burned_ticks_both_timers() {
    let mut b = BurnSource::new(1, 10, 4).generate_effect();
    assert!(!b.tick(4));
    assert!(b.interval.just_finished());
    assert_eq!(b.duration.elapsed, 4);
    assert!(!b.tick(3));
    assert!(!b.interval.just_finished());
    assert!(b.tick(3));
    assert_eq!(b.interval, timer(2, 4, true, true, 1));
}

#[test]
fn effect_is_taken_off_on_the_tick_that_completes_it() {
    let src = FreezeSource::new(500, 30);
    let rows = vec![(1u64, src.generate_effect()), (2u64, FreezeSource::new(500, 10).generate_effect())];
    let (kept, ended) = magic_timer_system(&rows, 10);
    assert_eq!(ended, vec![2]);
    assert_eq!(kept.len(), 1);
    assert_eq!(kept[0].0, 1);
    assert_eq!(kept[0].1.duration.elapsed, 10);
    let (kept, ended) = magic_timer_system(&kept, 10);
    assert!(ended.is_empty());
    assert_eq!(kept[0].1.duration.elapsed, 20);
    let (kept, ended) = magic_timer_system(&kept, 10);
    assert_eq!(ended, vec![1]);
    assert!(kept.is_empty());
    let (kept, ended) = magic_timer_system(&kept, 10);
    assert!(kept.is_empty());
    assert!(ended.is_empty());
}

#[test]
fn timer_system_serves_every_kind_of_effect() {
    let burning = vec![(4u64, BurnSource::new(1, 5, 2).generate_effect())];
    let (kept, ended) = magic_timer_system(&burning, 5);
    assert!(kept.is_empty());
    assert_eq!(ended, vec![4]);
    let stunned = vec![(5u64, ParalyzeSource::new(7).generate_effect())];
    let (kept, ended) = magic_timer_system(&stunned, 6);
    assert_eq!(kept, vec![(5, Paralyzed { duration: timer(6, 7, false, false, 0), fresh: true })]);
    assert!(ended.is_empty());
}

#[test]
fn frozen_bodies_slow_down_on_every_tick() {
    let frozen = FreezeSource::new(970, 1_000).generate_effect();
    let mut bodies = vec![
        (Velocity { x: 1000, y: -1000, angvel: 50 }, frozen),
        (Velocity { x: 0, y: 7, angvel: -7 }, Frozen { scale: 500, ..frozen }),
    ];
    frozen_system(&mut bodies);
    assert_eq!(bodies[0].0, Velocity { x: 970, y: -970, angvel: 48 });
    assert_eq!(bodies[1].0, Velocity { x: 0, y: 3, angvel: -3 });
    frozen_system(&mut bodies);
    assert_eq!(bodies[0].0, Velocity { x: 940, y: -940, angvel: 46 });
    assert_eq!(bodies[0].1, frozen);
}

#[test]
fn scaling_stays_in_range() {
    let mut v = Velocity { x: i32::MAX, y: i32::MIN, angvel: 1 };
    v.damp(u16::MAX);
    assert_eq!(v, Velocity { x: i32::MAX, y: i32::MIN, angvel: 65 });
    let mut w = Velocity { x: i32::MAX, y: i32::MIN, angvel: -1 };
    w.damp(1000);
    assert_eq!(w, Velocity { x: i32::MAX, y: i32::MIN, angvel: -1 });
    w.damp(0);
    assert_eq!(w, Velocity::zero());
}

#[test]
fn burning_takes_damage_when_the_interval_fires() {
    let mut fired = BurnSource::new(3, 100, 10).generate_effect();
    fired.tick(10);
    let mut idle = BurnSource::new(3, 100, 10).generate_effect();
    idle.tick(9);
    let mut rows = vec![(Health::new(5), fired), (Health::new(5), idle)];
    burned_system(&mut rows);
    assert_eq!(rows[0].0.hp, 2);
    assert_eq!(rows[1].0.hp, 5);
    burned_system(&mut rows);
    assert_eq!(rows[0].0.hp, -1);
}

#[test]
fn paralysis_stops_a_body_once() {
    let effect = ParalyzeSource::new(1_000).generate_effect();
    let mut bodies = vec![(Velocity { x: 30, y: -40, angvel: 9 }, effect)];
    paralyzed_system(&mut bodies);
    assert_eq!(bodies[0].0, Velocity { x: 0, y: 0, angvel: 9 });
    assert!(!bodies[0].1.fresh);
    bodies[0].0 = Velocity { x: 12, y: 5, angvel: 9 };
    bodies[0].1.tick(10);
    paralyzed_system(&mut bodies);
    assert_eq!(bodies[0].0, Velocity { x: 12, y: 5, angvel: 9 });
    bodies[0].1 = ParalyzeSource::new(1_000).generate_effect();
    paralyzed_system(&mut bodies);
    assert_eq!(bodies[0].0, Velocity { x: 0, y: 0, angvel: 9 });
}

#[test]
fn immobilized_entities_may_not_be_steered() {
    assert!(can_move(false, false));
    assert!(!can_move(true, false));
    assert!(!can_move(false, true));
    assert!(!can_move(true, true));
}

#[test]
fn heal_timer_runs_only_while_held() {
    let mut objects = vec![
        (Heal::new(1, 10), Some(Grabbed(7))),
        (Heal::new(1, 10), None),
    ];
    heal_timer_system(&mut objects, 10);
    assert!(objects[0].0.timer.just_finished());
    assert_eq!(objects[1].0.timer, timer(0, 10, true, false, 0));
}

#[test]
fn heal_reaches_the_holder_and_clamps() {
    let mut objects = vec![
        (Heal::new(5, 10), Some(Grabbed(7))),
        (Heal::new(-30, 10), Some(Grabbed(8))),
        (Heal::new(9, 10), Some(Grabbed(99))),
        (Heal::new(9, 10), None),
    ];
    heal_timer_system(&mut objects, 10);
    objects[3].0.timer.tick(10);
    let mut healths = vec![(7u64, Health::new(98)), (8u64, Health::new(20)), (9u64, Health::new(1))];
    heal_system(&objects, &mut healths);
    assert_eq!(healths, vec![(7, Health::new(100)), (8, Health::new(0)), (9, Health::new(1))]);
    heal_timer_system(&mut objects, 3);
    heal_system(&objects, &mut healths);
    assert_eq!(healths, vec![(7, Health::new(100)), (8, Health::new(0)), (9, Health::new(1))]);
}

#[test]
fn sight_widens_the_view_while_held() {
    let held = vec![(Sight::new(1500), None), (Sight::new(1200), Some(Grabbed(1)))];
    assert_eq!(sight_system(1000, 10, &held), 1010);
    assert_eq!(sight_system(1195, 10, &held), 1200);
    assert_eq!(sight_system(1300, 10, &held), 1200);
    let none = vec![(Sight::new(1500), None)];
    assert_eq!(sight_system(1300, 10, &none), 1290);
    assert_eq!(sight_system(1005, 10, &none), 1000);
    assert_eq!(sight_system(5, 10, &none), 1000);
    assert_eq!(sight_system(u32::MAX, u32::MAX, &held), 1200);
    assert_eq!(sight_system(1000, 10, &vec![]), 1000);
}

#[test]
fn contact_scan_picks_the_partner_of_active_pairs() {
    let contacts = vec![pair(1, 2, true), pair(3, 1, true), pair(1, 4, false), pair(5, 1, true)];
    assert_eq!(scan_contacts(1, &contacts, None, &vec![]), vec![2, 3, 5]);
    assert_eq!(scan_contacts(1, &contacts, Some(&vec![5, 2]), &vec![2]), vec![5]);
    assert_eq!(pair(1, 2, true).other(1), 2);
    assert_eq!(pair(1, 2, true).other(2), 1);
    assert_eq!(pair(1, 2, true).other(3), 1);
}

#[test]
fn freeze_spares_freeze_sources_and_strangers() {
    let src = FreezeSource::new(970, 2_000);
    let other = FreezeSource::new(500, 1_000);
    let sources = vec![
        Touching { entity: 1, source: src, contacts: vec![pair(1, 2, true), pair(3, 1, true), pair(1, 4, true), pair(1, 5, false)] },
        Touching { entity: 2, source: other, contacts: vec![pair(1, 2, true), pair(2, 3, true)] },
    ];
    let frozenable = vec![1, 2, 3, 5];
    let made = freeze_src_system(&sources, &frozenable);
    assert_eq!(made, vec![(3, src.generate_effect()), (3, other.generate_effect())]);
    let mut rows: Vec<(u64, Frozen)> = vec![];
    attach_effects(&mut rows, &made);
    assert_eq!(rows, vec![(3, other.generate_effect())]);
    assert!(rows.iter().all(|r| r.0 != 1 && r.0 != 2));
}

#[test]
fn burn_spares_only_burn_sources() {
    let src = BurnSource::new(1, 5_000, 500);
    let sources = vec![
        Touching { entity: 1, source: src, contacts: vec![pair(1, 2, true), pair(77, 1, true)] },
        Touching { entity: 2, source: src, contacts: vec![] },
    ];
    assert_eq!(burn_src_system(&sources), vec![(77, src.generate_effect())]);
}

#[test]
fn paralyze_reaches_players_only() {
    let src = ParalyzeSource::new(1_000);
    let sources = vec![
        Touching { entity: 1, source: src, contacts: vec![pair(1, 2, true), pair(9, 1, true), pair(9, 1, false)] },
        Touching { entity: 9, source: src, contacts: vec![pair(9, 1, true)] },
    ];
    assert_eq!(paralyze_src_system(&sources, &vec![9]), vec![(9, src.generate_effect())]);
    assert!(paralyze_src_system(&sources, &vec![]).is_empty());
}

#[test]
fn attaching_again_starts_the_effect_over() {
    let src = FreezeSource::new(970, 30);
    let mut rows = vec![(3u64, src.generate_effect()), (4u64, src.generate_effect())];
    let (kept, _) = magic_timer_system(&rows, 20);
    rows = kept;
    assert_eq!(rows[0].1.duration.elapsed, 20);
    attach_effects(&mut rows, &vec![(3, src.generate_effect()), (8, src.generate_effect())]);
    assert_eq!(rows.len(), 3);
    assert_eq!(rows[0], (3, src.generate_effect()));
    assert_eq!(rows[1].1.duration.elapsed, 20);
    assert_eq!(rows[2], (8, src.generate_effect()));
    let (kept, ended) = magic_timer_system(&rows, 10);
    assert_eq!(ended, vec![4]);
    assert_eq!(kept.len(), 2);
}
