use rab_core::armor_and_skills::{Armor, Gender, Skill};
use rab_core::dominance::{compare_armors, compare_slots, generate_deltas_skills, generate_virtual_slots, OddComparison};

fn piece(name: &str, skills: Vec<(Skill, u8)>, slots: Vec<u8>) -> Armor {
    Armor {
        name: name.to_string(),
        skills,
        slots,
        rare: 1,
        defense: 10,
        fire: 0,
        water: 0,
        thunder: 0,
        ice: 0,
        dragon: 0,
        gender: Gender::Neutral,
    }
}

#[test]
fn slots_both_empty_are_undefined() {
    assert_eq!(compare_slots(&[], &[]), OddComparison::Undefined);
}

#[test]
fn empty_slots_are_worse_than_any() {
    assert_eq!(compare_slots(&[], &[1]), OddComparison::Worse);
    assert_eq!(compare_slots(&[1], &[]), OddComparison::Better);
}

#[test]
fn equal_slots_are_undefined() {
    assert_eq!(compare_slots(&[1, 2], &[1, 2]), OddComparison::Undefined);
}

#[test]
fn mixed_slot_profiles_are_undefined() {
    assert_eq!(compare_slots(&[1, 1, 1], &[3]), OddComparison::Undefined);
    assert_eq!(compare_slots(&[2, 2, 2], &[1, 3, 3]), OddComparison::Undefined);
}

#[test]
fn larger_aligned_slot_is_better() {
    assert_eq!(compare_slots(&[2, 3], &[1, 3]), OddComparison::Better);
    assert_eq!(compare_slots(&[1, 3], &[2, 3]), OddComparison::Worse);
    assert_eq!(compare_slots(&[1, 1], &[1]), OddComparison::Better);
}

#[test]
fn deltas_remove_shared_skills() {
    let a = vec![(Skill::Botanist, 2), (Skill::CriticalBoost, 1)];
    let b = vec![(Skill::Botanist, 1), (Skill::CriticalBoost, 1), (Skill::AttackBoost, 1)];
    let (da, db) = generate_deltas_skills(&a, &b);
    assert_eq!(da, vec![(Skill::Botanist, 1), (Skill::CriticalBoost, 0)]);
    assert_eq!(db, vec![(Skill::Botanist, 0), (Skill::CriticalBoost, 0), (Skill::AttackBoost, 1)]);
}

#[test]
fn virtual_slots_follow_jewel_sizes() {
    let wishes = [(Skill::AttackBoost, 3), (Skill::Botanist, 1)];
    let skills = [(Skill::Botanist, 2), (Skill::AttackBoost, 1), (Skill::Earplugs, 2)];
    let (priority, slots) = generate_virtual_slots(&wishes, &skills);
    assert!(!priority);
    assert_eq!(slots, vec![2, 1, 1]);
}

#[test]
fn skill_without_jewel_gives_priority() {
    let wishes = [(Skill::WindAlignment, 1)];
    let (priority, slots) = generate_virtual_slots(&wishes, &[(Skill::WindAlignment, 1)]);
    assert!(priority);
    assert!(slots.is_empty());
    let (priority, _) = generate_virtual_slots(&wishes, &[(Skill::WindAlignment, 0)]);
    assert!(!priority);
}

#[test]
fn slotless_piece_is_worse_than_slotted_twin() {
    let wishes = [(Skill::AttackBoost, 1)];
    let slotted = piece("slotted", vec![], vec![3]);
    let bare = piece("bare", vec![], vec![]);
    assert_eq!(compare_armors(&wishes, &bare, &slotted), OddComparison::Worse);
    assert_eq!(compare_armors(&wishes, &slotted, &bare), OddComparison::Better);
}

#[test]
fn small_slot_is_worse_than_large_slot() {
    let wishes = [(Skill::Botanist, 1)];
    let a = piece("a", vec![], vec![1]);
    let b = piece("b", vec![], vec![3]);
    assert_eq!(compare_armors(&wishes, &a, &b), OddComparison::Worse);
    assert_eq!(compare_armors(&wishes, &b, &a), OddComparison::Better);
}

#[test]
fn two_small_slots_and_one_large_are_undefined() {
    let wishes = [(Skill::Botanist, 1)];
    let a = piece("a", vec![], vec![1, 1]);
    let b = piece("b", vec![], vec![3]);
    assert_eq!(compare_armors(&wishes, &a, &b), OddComparison::Undefined);
    assert_eq!(compare_armors(&wishes, &b, &a), OddComparison::Undefined);
}

#[test]
fn skill_recreated_by_a_jewel_is_worse() {
    let wishes = [(Skill::Botanist, 1)];
    let a = piece("a", vec![(Skill::Botanist, 1)], vec![]);
    let b = piece("b", vec![], vec![1]);
    assert_eq!(compare_armors(&wishes, &a, &b), OddComparison::Worse);
    assert_eq!(compare_armors(&wishes, &b, &a), OddComparison::Better);
}

#[test]
fn skill_without_jewel_is_never_worse() {
    let wishes = [(Skill::WindAlignment, 1)];
    let a = piece("a", vec![(Skill::WindAlignment, 1)], vec![]);
    let b = piece("b", vec![], vec![3, 3, 3]);
    assert_eq!(compare_armors(&wishes, &a, &b), OddComparison::Undefined);
}

#[test]
fn slots_are_compared_in_ascending_order() {
    let a = piece("a", vec![], vec![3, 1]);
    let b = piece("b", vec![], vec![1, 2]);
    assert_eq!(compare_armors(&[], &a, &b), OddComparison::Better);
    assert_eq!(compare_armors(&[], &b, &a), OddComparison::Worse);
}

#[test]
fn better_and_worse_mirror_each_other() {
    let wishes = [(Skill::AttackBoost, 2), (Skill::Botanist, 1), (Skill::WindAlignment, 1)];
    let pieces = vec![
        piece("p0", vec![], vec![]),
        piece("p1", vec![], vec![1]),
        piece("p2", vec![], vec![3]),
        piece("p3", vec![], vec![1, 1]),
        piece("p4", vec![(Skill::AttackBoost, 1)], vec![1]),
        piece("p5", vec![(Skill::Botanist, 1)], vec![]),
        piece("p6", vec![(Skill::WindAlignment, 1)], vec![2]),
        piece("p7", vec![], vec![3, 1]),
        piece("p8", vec![], vec![2, 2, 2]),
    ];
    for a in &pieces {
        for b in &pieces {
            let ab = compare_armors(&wishes, a, b);
            let ba = compare_armors(&wishes, b, a);
            assert_eq!(ab == OddComparison::Better, ba == OddComparison::Worse);
            assert_eq!(ab == OddComparison::Worse, ba == OddComparison::Better);
        }
    }
}
