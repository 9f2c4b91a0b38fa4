use shapecraft::component::{Blueprint, Health, Storage, StorageInHand};
use shapecraft::shape_mod::{init_table, Type};
use std::cmp::Ordering;

#[test]
fn insert_fills_first_free_slot() {
    let mut s = Storage { items: vec![Type::Square, Type::Empty, Type::Circle, Type::Empty] };
    assert!(s.insert(Type::Heart));
    assert_eq!(s.items, vec![Type::Square, Type::Heart, Type::Circle, Type::Empty]);
}

#[test]
fn insert_into_full_storage_fails() {
    let mut s = Storage { items: vec![Type::Square, Type::Circle] };
    assert!(!s.insert(Type::Heart));
    assert_eq!(s.items, vec![Type::Square, Type::Circle]);
}

#[test]
fn insert_into_storage_without_slots_fails() {
    let mut s = Storage::new(0);
    assert!(!s.insert(Type::Heart));
    assert!(s.items.is_empty());
}

#[test]
fn new_storage_is_empty() {
    let s = Storage::new(8);
    assert_eq!(s.items, vec![Type::Empty; 8]);
}

#[test]
fn remove_resets_named_slots() {
    let mut s = Storage { items: vec![Type::Square, Type::Heart, Type::Circle, Type::Empty] };
    s.remove(&[0, 2]);
    assert_eq!(s.items, vec![Type::Empty, Type::Heart, Type::Empty, Type::Empty]);
}

#[test]
fn remove_takes_repeated_and_no_indices() {
    let mut s = Storage { items: vec![Type::Square, Type::Heart] };
    s.remove(&[]);
    assert_eq!(s.items, vec![Type::Square, Type::Heart]);
    s.remove(&[1, 1]);
    assert_eq!(s.items, vec![Type::Square, Type::Empty]);
}

#[test]
fn blueprint_insert_reports_full() {
    let mut b = Blueprint::new(2);
    assert!(b.insert(Type::Circle));
    assert!(b.insert(Type::Square));
    assert!(!b.insert(Type::Heart));
    assert_eq!(b.items, vec![Type::Circle, Type::Square]);
}

#[test]
fn blueprint_clear_resets_every_slot() {
    let mut b = Blueprint::new(3);
    assert!(b.insert(Type::Circle));
    assert!(b.insert(Type::Circle));
    b.clear();
    assert_eq!(b.items, vec![Type::Empty, Type::Empty, Type::Empty]);
}

#[test]
fn ingredients_are_counted_and_sorted_descending() {
    let b = Blueprint {
        items: vec![Type::Circle, Type::Triangle, Type::Empty, Type::Circle],
    };
    assert_eq!(b.ingredients(), vec![(Type::Triangle, 1), (Type::Circle, 2)]);
}

#[test]
fn ingredients_do_not_depend_on_slot_order() {
    let a = Blueprint { items: vec![Type::Heart, Type::Square, Type::Heart, Type::Empty] };
    let b = Blueprint { items: vec![Type::Empty, Type::Heart, Type::Heart, Type::Square] };
    assert_eq!(a.ingredients(), b.ingredients());
    assert_eq!(a.ingredients(), vec![(Type::Heart, 2), (Type::Square, 1)]);
}

#[test]
fn ingredients_of_every_kind() {
    let b = Blueprint {
        items: vec![
            Type::Square,
            Type::Circle,
            Type::Rect,
            Type::Triangle,
            Type::Heart,
            Type::Rust,
            Type::Rust,
        ],
    };
    assert_eq!(
        b.ingredients(),
        vec![
            (Type::Rust, 2),
            (Type::Heart, 1),
            (Type::Triangle, 1),
            (Type::Rect, 1),
            (Type::Circle, 1),
            (Type::Square, 1),
        ]
    );
}

#[test]
fn ingredients_of_an_empty_blueprint() {
    assert!(Blueprint::new(4).ingredients().is_empty());
    assert!(Blueprint::new(0).ingredients().is_empty());
}

#[test]
fn heal_clamps_to_the_healing_range() {
    let mut h = Health::new(95);
    h.heal(10);
    assert_eq!(h.hp, 100);
    h.heal(-30);
    assert_eq!(h.hp, 70);
    h.heal(-200);
    assert_eq!(h.hp, 0);
    let mut low = Health::new(-50);
    low.heal(1);
    assert_eq!(low.hp, 0);
    let mut edge = Health::new(i32::MAX);
    edge.heal(i32::MAX);
    assert_eq!(edge.hp, 100);
}

#[test]
fn damage_is_not_clamped() {
    let mut h = Health::new(3);
    h.damage(10);
    assert_eq!(h.hp, -7);
    assert!(h.dead());
    h.damage(-207);
    assert_eq!(h.hp, 200);
    assert!(!h.dead());
    let mut zero = Health::new(1);
    zero.damage(1);
    assert!(zero.dead());
}

#[test]
fn damage_stops_at_the_bounds_of_the_integer() {
    let mut h = Health::new(i32::MIN + 1);
    h.damage(5);
    assert_eq!(h.hp, i32::MIN);
    let mut g = Health::new(i32::MAX);
    g.damage(-1);
    assert_eq!(g.hp, i32::MAX);
}

#[test]
fn kinds_are_ordered_by_rank() {
    assert_eq!(Type::Empty.compare(&Type::Square), Ordering::Less);
    assert_eq!(Type::Rust.compare(&Type::Heart), Ordering::Greater);
    assert_eq!(Type::Rect.compare(&Type::Rect), Ordering::Equal);
    assert!(Type::Circle < Type::Rect);
    assert!(Type::Triangle > Type::Rect);
}

#[test]
fn codes_and_kinds_convert_both_ways() {
    let kinds = [
        Type::Empty,
        Type::Square,
        Type::Circle,
        Type::Rect,
        Type::Triangle,
        Type::Heart,
        Type::Rust,
    ];
    for (i, k) in kinds.iter().enumerate() {
        assert_eq!(k.code() as usize, i);
        assert_eq!(k.index(), i);
        assert_eq!(Type::from_code(i as u8), Some(*k));
    }
    assert_eq!(Type::from_code(7), None);
    assert_eq!(Type::from_code(255), None);
}

#[test]
fn recipes_of_the_game() {
    let t = init_table();
    assert_eq!(t.len(), 3);
    assert_eq!(t[0], (vec![(Type::Square, 2)], Type::Rect));
    assert_eq!(t[1], (vec![(Type::Triangle, 1), (Type::Circle, 2)], Type::Heart));
    assert_eq!(t[2], (vec![(Type::Heart, 2)], Type::Rust));
}

#[test]
fn selection_starts_without_a_slot() {
    let s = StorageInHand { prev: None, cur: None };
    assert_eq!(s.cur, None);
    assert_eq!(s.prev, None);
}
