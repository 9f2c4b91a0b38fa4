use shapecraft::bundle::{spawn_object, Magic, PlayerBundle, StaticBundle};
use shapecraft::component::{Dmg, Health, Throwable, Undead};
use shapecraft::in_game::{
    player_movement_system, spawn_boundary, spawn_choice, spawn_objects, update_game_state,
    AppState, SpawnTimer, Steering, Wall, DRIVE_FORCE, FRICTION_FORCE, MAX_OBJECTS,
};
use shapecraft::magic::{BurnSource, Explode, FreezeSource, Heal, ParalyzeSource, Sight};
use shapecraft::shape_mod::Type;

fn keys(left: bool, right: bool, up: bool, down: bool) -> Steering {
    Steering { left, right, up, down }
}

const PLAIN: Magic = Magic {
    heal: None,
    sight: None,
    freeze: None,
    burn: None,
    paralyze: None,
    explode: None,
};

#[test]
fn the_game_ends_when_the_player_dies() {
    assert_eq!(update_game_state(AppState::InGame, &Health::new(0)), AppState::EndGame);
    assert_eq!(update_game_state(AppState::InGame, &Health::new(-3)), AppState::EndGame);
    assert_eq!(update_game_state(AppState::InGame, &Health::new(1)), AppState::InGame);
    assert_eq!(update_game_state(AppState::Setup, &Health::new(0)), AppState::Setup);
    assert_eq!(update_game_state(AppState::EndGame, &Health::new(50)), AppState::EndGame);
}

#[test]
fn keys_give_the_driving_force() {
    assert_eq!(DRIVE_FORCE, 2000);
    assert_eq!(FRICTION_FORCE, 600);
    let go = |k| player_movement_system(AppState::InGame, k, false, false);
    assert_eq!(go(keys(false, false, false, false)), Some((0, 0)));
    assert_eq!(go(keys(true, false, false, false)), Some((-2000, 0)));
    assert_eq!(go(keys(false, true, true, false)), Some((2000, 2000)));
    assert_eq!(go(keys(true, true, false, true)), Some((0, -2000)));
    assert_eq!(go(keys(true, true, true, true)), Some((0, 0)));
}

#[test]
fn no_force_while_immobilized_or_after_the_end() {
    let k = keys(false, true, false, false);
    assert_eq!(player_movement_system(AppState::InGame, k, true, false), None);
    assert_eq!(player_movement_system(AppState::InGame, k, false, true), None);
    assert_eq!(player_movement_system(AppState::EndGame, k, false, false), None);
    assert_eq!(player_movement_system(AppState::Setup, k, false, false), Some((2000, 0)));
}

#[test]
fn the_number_drawn_picks_the_kind() {
    assert_eq!(spawn_choice(true, 0, 0), Some(Type::Square));
    assert_eq!(spawn_choice(true, 9, 1), Some(Type::Circle));
    assert_eq!(spawn_choice(true, 3, 2), Some(Type::Triangle));
    assert_eq!(spawn_choice(true, 3, 3), None);
    assert_eq!(spawn_choice(true, MAX_OBJECTS, 1), None);
    assert_eq!(spawn_choice(false, 0, 1), None);
}

#[test]
fn objects_spawn_when_the_timer_fires_and_there_is_room() {
    let mut timer = SpawnTimer::new();
    assert_eq!(spawn_objects(&mut timer, 999_999_999, 0), None);
    for _ in 0..200 {
        let kind = spawn_objects(&mut timer, 1_000_000_000, 9);
        assert!(matches!(kind, Some(Type::Square) | Some(Type::Circle) | Some(Type::Triangle)));
    }
    assert_eq!(spawn_objects(&mut timer, 1_000_000_000, 10), None);
    assert_eq!(spawn_objects(&mut timer, 0, 0), None);
    assert_eq!(timer.0.elapsed, 999_999_999);
    assert_eq!(timer.0.times_finished, 0);
}

#[test]
fn every_basic_kind_is_drawn() {
    let mut timer = SpawnTimer::new();
    let mut seen = [false; 3];
    for _ in 0..2000 {
        match spawn_objects(&mut timer, 1_000_000_000, 0) {
            Some(Type::Square) => seen[0] = true,
            Some(Type::Circle) => seen[1] = true,
            Some(Type::Triangle) => seen[2] = true,
            other => panic!("{:?}", other),
        }
    }
    assert_eq!(seen, [true, true, true]);
}

#[test]
fn the_boundary_has_four_walls() {
    assert_eq!(
        spawn_boundary(),
        vec![
            Wall { half_width: 146, half_height: 50, x: 0, y: 104 },
            Wall { half_width: 146, half_height: 50, x: 0, y: -104 },
            Wall { half_width: 50, half_height: 104, x: 146, y: 0 },
            Wall { half_width: 50, half_height: 104, x: -146, y: 0 },
        ]
    );
}

#[test]
fn a_player_starts_healthy_and_empty_handed() {
    let p = PlayerBundle::new();
    assert_eq!(p.health, Health::new(100));
    assert_eq!(p.dmg, Dmg(1));
    assert_eq!(p.storage.items, vec![Type::Empty; 8]);
    assert_eq!(p.blueprint.items, vec![Type::Empty; 4]);
}

#[test]
fn each_kind_carries_its_magic() {
    let heart = spawn_object(Type::Heart);
    assert_eq!(heart.throwable, Throwable(Type::Heart));
    assert_eq!(heart.health, Health::new(2));
    assert_eq!(heart.dmg, Dmg(1));
    assert_eq!(
        heart.magic,
        Magic {
            heal: Some(Heal::new(1, 100_000_000)),
            freeze: Some(FreezeSource::new(970, 2_000_000_000)),
            ..PLAIN
        }
    );
    let square = spawn_object(Type::Square);
    assert_eq!(square.health, Health::new(10));
    assert_eq!(
        square.magic,
        Magic { paralyze: Some(ParalyzeSource::new(1_000_000_000)), ..PLAIN }
    );
    let circle = spawn_object(Type::Circle);
    assert_eq!(circle.health, Health::new(2));
    assert_eq!(
        circle.magic,
        Magic {
            sight: Some(Sight::new(1500)),
            explode: Some(Explode::new(20_000, 20)),
            ..PLAIN
        }
    );
    let triangle = spawn_object(Type::Triangle);
    assert_eq!(triangle.health, Health::new(1));
    assert_eq!(
        triangle.magic,
        Magic { burn: Some(BurnSource::new(1, 5_000_000_000, 500_000_000)), ..PLAIN }
    );
    for plain in [Type::Empty, Type::Rect, Type::Rust] {
        let o = spawn_object(plain);
        assert_eq!(o.throwable, Throwable(plain));
        assert_eq!(o.health, Health::new(2));
        assert_eq!(o.magic, PLAIN);
    }
}

#[test]
fn the_boundary_is_undead() {
    let wall = StaticBundle::new_rect();
    assert_eq!(wall, StaticBundle { health: Health::new(0), dmg: Dmg(1), undead: Undead });
}
