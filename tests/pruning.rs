use rab_core::armor_and_skills::{Armor, Gender, Skill};
use rab_core::pruning::search_best_candidates;

fn piece(name: &str, skills: Vec<(Skill, u8)>, slots: Vec<u8>, gender: Gender) -> Armor {
    Armor {
        name: name.to_string(),
        skills,
        slots,
        rare: 1,
        defense: 10,
        fire: 0,
        water: 0,
        thunder: 0,
        ice: 0,
        dragon: 0,
        gender,
    }
}

fn names(v: &[Armor]) -> Vec<String> {
    v.iter().map(|a| a.name.clone()).collect()
}

#[test]
fn slotless_twin_is_pruned() {
    let wishes = [(Skill::AttackBoost, 1)];
    let pool = vec![
        piece("slotted", vec![], vec![3], Gender::Neutral),
        piece("bare", vec![], vec![], Gender::Neutral),
    ];
    assert_eq!(names(&search_best_candidates(&wishes, &pool, Gender::Male)), vec!["slotted"]);
}

#[test]
fn gender_filter_keeps_neutral_and_selected() {
    let wishes = [(Skill::Botanist, 1)];
    let pool = vec![
        piece("female", vec![(Skill::Botanist, 1)], vec![], Gender::Female),
        piece("male", vec![(Skill::Botanist, 1)], vec![], Gender::Male),
        piece("neutral", vec![(Skill::Botanist, 1)], vec![], Gender::Neutral),
    ];
    assert_eq!(names(&search_best_candidates(&wishes, &pool, Gender::Male)), vec!["male", "neutral"]);
    assert_eq!(names(&search_best_candidates(&wishes, &pool, Gender::Female)), vec!["female", "neutral"]);
}

#[test]
fn irrelevant_pieces_are_dropped() {
    let wishes = [(Skill::Mushroomancer, 1)];
    let pool = vec![
        piece("small slots", vec![], vec![2, 2], Gender::Neutral),
        piece("other skill", vec![(Skill::Botanist, 3)], vec![1], Gender::Neutral),
        piece("large slot", vec![], vec![3], Gender::Neutral),
        piece("native", vec![(Skill::Mushroomancer, 1)], vec![], Gender::Neutral),
    ];
    assert_eq!(names(&search_best_candidates(&wishes, &pool, Gender::Male)), vec!["large slot"]);
}

#[test]
fn empty_pool_gives_nothing() {
    let wishes = [(Skill::Botanist, 1)];
    assert!(search_best_candidates(&wishes, &[], Gender::Male).is_empty());
}

#[test]
fn no_wishes_keep_nothing() {
    let pool = vec![piece("a", vec![(Skill::Botanist, 1)], vec![3], Gender::Neutral)];
    assert!(search_best_candidates(&[], &pool, Gender::Male).is_empty());
}

#[test]
fn pruning_twice_changes_nothing() {
    let wishes = [(Skill::AttackBoost, 2), (Skill::Botanist, 1)];
    let pool = vec![
        piece("a", vec![(Skill::AttackBoost, 1)], vec![1], Gender::Neutral),
        piece("b", vec![], vec![2, 1], Gender::Neutral),
        piece("c", vec![], vec![1], Gender::Neutral),
        piece("d", vec![(Skill::Botanist, 1)], vec![3], Gender::Neutral),
        piece("e", vec![], vec![1, 1], Gender::Female),
        piece("f", vec![], vec![3, 3], Gender::Neutral),
    ];
    let once = search_best_candidates(&wishes, &pool, Gender::Male);
    let again = search_best_candidates(&wishes, &pool, Gender::Male);
    let twice = search_best_candidates(&wishes, &once, Gender::Male);
    assert_eq!(names(&once), names(&again));
    assert_eq!(names(&once), names(&twice));
    assert!(!once.is_empty());
}

#[test]
fn duplicates_by_name_are_kept() {
    let wishes = [(Skill::Botanist, 1)];
    let pool = vec![
        piece("same", vec![], vec![1], Gender::Neutral),
        piece("same", vec![], vec![1], Gender::Neutral),
    ];
    assert_eq!(names(&search_best_candidates(&wishes, &pool, Gender::Male)), vec!["same", "same"]);
}
