use rab_core::armor_and_skills::{Armor, Gender, Skill};
use rab_core::build_search::{brute_force_search_builds, pre_selection_then_brute_force_search, AllArmorSlices};
use rab_core::builds::{add_build, Build, Jewels};

fn piece(name: &str, skills: Vec<(Skill, u8)>, slots: Vec<u8>) -> Armor {
    Armor {
        name: name.to_string(),
        skills,
        slots,
        rare: 1,
        defense: 10,
        fire: 0,
        water: 0,
        thunder: 0,
        ice: 0,
        dragon: 0,
        gender: Gender::Neutral,
    }
}

fn slices<'a>(
    helmets: &'a [Armor],
    chests: &'a [Armor],
    arms: &'a [Armor],
    waists: &'a [Armor],
    legs: &'a [Armor],
    talismans: &'a [Armor],
) -> AllArmorSlices<'a> {
    AllArmorSlices { helmets, chests, arms, waists, legs, talismans }
}

fn parts(b: &Build) -> [&Option<(Armor, Jewels)>; 6] {
    [&b.helmet, &b.chest, &b.arm, &b.waist, &b.leg, &b.talisman]
}

fn names(b: &Build) -> Vec<Option<String>> {
    parts(b).iter().map(|p| p.as_ref().map(|(a, _)| a.name.clone())).collect()
}

fn more_general(g: &Build, s: &Build) -> bool {
    let mut differ = false;
    for (x, y) in parts(g).iter().zip(parts(s).iter()) {
        match (x, y) {
            (None, Some(_)) => differ = true,
            (None, None) => {}
            (Some(a), Some(b)) => {
                if a.0.name != b.0.name {
                    return false;
                }
            }
            (Some(_), None) => return false,
        }
    }
    differ
}

fn build_of(pieces: [Option<&Armor>; 6]) -> Build {
    let part = |p: Option<&Armor>| p.map(|a| (a.clone(), [None, None, None]));
    Build {
        helmet: part(pieces[0]),
        chest: part(pieces[1]),
        arm: part(pieces[2]),
        waist: part(pieces[3]),
        leg: part(pieces[4]),
        talisman: part(pieces[5]),
        weapon_jewels: [None, None, None],
    }
}

fn total(b: &Build, s: Skill) -> u32 {
    b.get_all_skills_and_amounts().iter().filter(|(k, _)| *k == s).map(|(_, a)| *a as u32).sum()
}

#[test]
fn skill_without_jewel_cannot_come_from_slots() {
    let wishes = [(Skill::WindAlignment, 2)];
    let slotted = vec![piece("slotted", vec![], vec![3, 3, 3])];
    let builds = brute_force_search_builds(
        &wishes,
        slices(&slotted, &slotted, &slotted, &slotted, &slotted, &slotted),
        [3, 3, 3],
    );
    assert!(builds.is_empty());
    let builds = pre_selection_then_brute_force_search(
        &wishes,
        slices(&slotted, &slotted, &slotted, &slotted, &slotted, &slotted),
        Gender::Male,
        [3, 3, 3],
    );
    assert!(builds.is_empty());
}

#[test]
fn native_skill_without_jewel_is_found() {
    let wishes = [(Skill::WindAlignment, 2)];
    let helmets = vec![piece("wind", vec![(Skill::WindAlignment, 2)], vec![])];
    let builds = pre_selection_then_brute_force_search(&wishes, slices(&helmets, &[], &[], &[], &[], &[]), Gender::Male, [0, 0, 0]);
    assert_eq!(builds.len(), 1);
    assert_eq!(names(&builds[0]), vec![Some("wind".to_string()), None, None, None, None, None]);
}

#[test]
fn more_specific_build_is_dropped_after() {
    let a = piece("A", vec![], vec![]);
    let b = piece("B", vec![], vec![]);
    let c = piece("C", vec![], vec![]);
    let mut builds = Vec::new();
    add_build(&mut builds, build_of([Some(&a), Some(&b), None, None, None, None]));
    add_build(&mut builds, build_of([Some(&a), Some(&b), Some(&c), None, None, None]));
    assert_eq!(builds.len(), 1);
    assert_eq!(names(&builds[0]), vec![Some("A".to_string()), Some("B".to_string()), None, None, None, None]);
}

#[test]
fn more_general_build_replaces_earlier_ones() {
    let a = piece("A", vec![], vec![]);
    let b = piece("B", vec![], vec![]);
    let c = piece("C", vec![], vec![]);
    let d = piece("D", vec![], vec![]);
    let x = piece("X", vec![], vec![]);
    let mut builds = Vec::new();
    add_build(&mut builds, build_of([Some(&a), Some(&b), Some(&c), None, None, None]));
    add_build(&mut builds, build_of([Some(&x), None, None, None, None, None]));
    add_build(&mut builds, build_of([Some(&a), Some(&b), Some(&d), None, None, None]));
    assert_eq!(builds.len(), 3);
    add_build(&mut builds, build_of([Some(&a), Some(&b), None, None, None, None]));
    assert_eq!(builds.len(), 2);
    assert_eq!(names(&builds[0]), vec![Some("A".to_string()), Some("B".to_string()), None, None, None, None]);
    assert_eq!(names(&builds[1]), vec![Some("X".to_string()), None, None, None, None, None]);
}

#[test]
fn different_pieces_are_not_comparable() {
    let a = piece("A", vec![], vec![]);
    let b = piece("B", vec![], vec![]);
    let c = piece("C", vec![], vec![]);
    let mut builds = Vec::new();
    add_build(&mut builds, build_of([Some(&a), Some(&b), None, None, None, None]));
    add_build(&mut builds, build_of([Some(&a), None, Some(&c), None, None, None]));
    add_build(&mut builds, build_of([Some(&c), Some(&b), None, None, None, None]));
    assert_eq!(builds.len(), 3);
}

#[test]
fn identical_pieces_are_kept_twice() {
    let a = piece("A", vec![], vec![]);
    let mut builds = Vec::new();
    add_build(&mut builds, build_of([Some(&a), None, None, None, None, None]));
    add_build(&mut builds, build_of([Some(&a), None, None, None, None, None]));
    assert_eq!(builds.len(), 2);
}

#[test]
fn search_keeps_the_most_general_builds() {
    let wishes = [(Skill::AttackBoost, 2)];
    let helmets = vec![piece("A", vec![(Skill::AttackBoost, 1)], vec![])];
    let chests = vec![piece("B", vec![(Skill::AttackBoost, 1)], vec![])];
    let arms = vec![piece("C", vec![], vec![2])];
    let builds = pre_selection_then_brute_force_search(&wishes, slices(&helmets, &chests, &arms, &[], &[], &[]), Gender::Male, [0, 0, 0]);
    let found: Vec<Vec<Option<String>>> = builds.iter().map(names).collect();
    let s = |x: &str| Some(x.to_string());
    assert_eq!(
        found,
        vec![
            vec![s("A"), s("B"), None, None, None, None],
            vec![s("A"), None, s("C"), None, None, None],
            vec![None, s("B"), s("C"), None, None, None],
        ]
    );
    assert_eq!(builds[0].arm.is_none(), true);
    assert_eq!(builds[1].arm.as_ref().unwrap().1, [Some(Skill::AttackBoost), None, None]);
    assert_eq!(builds[2].arm.as_ref().unwrap().1, [Some(Skill::AttackBoost), None, None]);
}

#[test]
fn weapon_slots_take_jewels() {
    let wishes = [(Skill::Botanist, 1)];
    let builds = pre_selection_then_brute_force_search(&wishes, slices(&[], &[], &[], &[], &[], &[]), Gender::Male, [1, 0, 0]);
    assert_eq!(builds.len(), 1);
    assert_eq!(names(&builds[0]), vec![None, None, None, None, None, None]);
    assert_eq!(builds[0].weapon_jewels, [Some(Skill::Botanist), None, None]);
}

#[test]
fn large_jewels_are_placed_first() {
    let wishes = [(Skill::Botanist, 1), (Skill::Mushroomancer, 1)];
    let builds = pre_selection_then_brute_force_search(&wishes, slices(&[], &[], &[], &[], &[], &[]), Gender::Male, [3, 1, 0]);
    assert_eq!(builds.len(), 1);
    assert_eq!(builds[0].weapon_jewels, [Some(Skill::Mushroomancer), Some(Skill::Botanist), None]);
}

#[test]
fn too_few_slots_find_nothing() {
    let wishes = [(Skill::Botanist, 2)];
    let builds = pre_selection_then_brute_force_search(&wishes, slices(&[], &[], &[], &[], &[], &[]), Gender::Male, [1, 0, 0]);
    assert!(builds.is_empty());
}

#[test]
fn jewels_fill_piece_slots_in_order() {
    let wishes = [(Skill::Botanist, 2)];
    let helmets = vec![piece("H", vec![], vec![1, 2, 3])];
    let builds = pre_selection_then_brute_force_search(&wishes, slices(&helmets, &[], &[], &[], &[], &[]), Gender::Male, [0, 0, 0]);
    assert_eq!(builds.len(), 1);
    assert_eq!(builds[0].helmet.as_ref().unwrap().1, [Some(Skill::Botanist), Some(Skill::Botanist), None]);
}

#[test]
fn no_wishes_give_the_empty_build() {
    let helmets = vec![piece("H", vec![(Skill::Botanist, 1)], vec![1])];
    let builds = pre_selection_then_brute_force_search(&[], slices(&helmets, &[], &[], &[], &[], &[]), Gender::Male, [0, 0, 0]);
    assert_eq!(builds.len(), 1);
    assert_eq!(names(&builds[0]), vec![None, None, None, None, None, None]);
}

#[test]
fn found_builds_meet_the_wishes_and_are_not_redundant() {
    let wishes = [(Skill::AttackBoost, 2), (Skill::Botanist, 1), (Skill::CriticalEye, 1)];
    let helmets = vec![
        piece("h1", vec![(Skill::AttackBoost, 1)], vec![1]),
        piece("h2", vec![(Skill::CriticalEye, 1)], vec![2]),
    ];
    let chests = vec![piece("c1", vec![(Skill::AttackBoost, 2)], vec![]), piece("c2", vec![], vec![2, 2])];
    let arms = vec![piece("a1", vec![(Skill::Botanist, 1)], vec![1])];
    let talismans = vec![piece("t1", vec![(Skill::CriticalEye, 1)], vec![1, 1])];
    let builds = pre_selection_then_brute_force_search(&wishes, slices(&helmets, &chests, &arms, &[], &[], &talismans), Gender::Male, [2, 1, 0]);
    assert!(!builds.is_empty());
    for b in &builds {
        for (s, level) in wishes.iter() {
            assert!(total(b, *s) >= *level as u32, "{:?} lacks {:?}", names(b), s);
        }
    }
    for x in &builds {
        for y in &builds {
            assert!(!more_general(x, y));
        }
    }
}

#[test]
fn totals_count_pieces_and_jewels() {
    let a = piece("A", vec![(Skill::AttackBoost, 1), (Skill::Botanist, 0)], vec![2]);
    let build = Build {
        helmet: Some((a, [Some(Skill::AttackBoost), None, None])),
        chest: None,
        arm: None,
        waist: None,
        leg: None,
        talisman: None,
        weapon_jewels: [Some(Skill::Guard), Some(Skill::AttackBoost), None],
    };
    let mut totals = build.get_all_skills_and_amounts();
    totals.sort_by_key(|(s, _)| format!("{:?}", s));
    assert_eq!(totals, vec![(Skill::AttackBoost, 3), (Skill::Botanist, 0), (Skill::Guard, 1)]);
}

#[test]
fn totals_saturate() {
    let a = piece("A", vec![(Skill::Guard, 200)], vec![]);
    let b = piece("B", vec![(Skill::Guard, 100)], vec![]);
    let build = Build {
        helmet: Some((a, [None, None, None])),
        chest: Some((b, [None, None, None])),
        arm: None,
        waist: None,
        leg: None,
        talisman: None,
        weapon_jewels: [None, None, None],
    };
    assert_eq!(build.get_all_skills_and_amounts(), vec![(Skill::Guard, 255)]);
}

#[test]
fn empty_build_has_no_skills() {
    let build = build_of([None, None, None, None, None, None]);
    assert!(build.get_all_skills_and_amounts().is_empty());
}

#[test]
fn repeated_wish_is_met_by_the_same_levels() {
    let wishes = [(Skill::Botanist, 1), (Skill::Botanist, 1)];
    let helmets = vec![piece("H", vec![(Skill::Botanist, 1)], vec![])];
    let builds = brute_force_search_builds(&wishes, slices(&helmets, &[], &[], &[], &[], &[]), [0, 0, 0]);
    assert_eq!(builds.len(), 1);
    assert_eq!(names(&builds[0]), vec![Some("H".to_string()), None, None, None, None, None]);
}

#[test]
fn weapon_jewels_make_pieces_redundant() {
    let wishes = [(Skill::AttackBoost, 1)];
    let helmets = vec![piece("H", vec![(Skill::AttackBoost, 3)], vec![2])];
    let builds = brute_force_search_builds(&wishes, slices(&helmets, &[], &[], &[], &[], &[]), [2, 0, 0]);
    assert_eq!(builds.len(), 1);
    assert_eq!(names(&builds[0]), vec![None, None, None, None, None, None]);
    assert_eq!(builds[0].weapon_jewels, [Some(Skill::AttackBoost), None, None]);
}

#[test]
fn native_levels_leave_slots_free() {
    let wishes = [(Skill::AttackBoost, 1)];
    let helmets = vec![piece("H", vec![(Skill::AttackBoost, 3)], vec![2])];
    let builds = brute_force_search_builds(&wishes, slices(&helmets, &[], &[], &[], &[], &[]), [0, 0, 0]);
    assert_eq!(builds.len(), 1);
    assert_eq!(builds[0].helmet.as_ref().unwrap().1, [None, None, None]);
}
