use rab_core::armor_and_skills::{armor_to_talisman, talisman_to_armor, Armor, Gender, Skill, Talisman};

#[test]
fn jewel_sizes_and_limits() {
    assert_eq!(Skill::Botanist.get_jewel_size(), Some(1));
    assert_eq!(Skill::Botanist.get_limit(), 4);
    assert_eq!(Skill::AttackBoost.get_jewel_size(), Some(2));
    assert_eq!(Skill::AttackBoost.get_limit(), 7);
    assert_eq!(Skill::Mushroomancer.get_jewel_size(), Some(3));
    assert_eq!(Skill::WindAlignment.get_jewel_size(), None);
    assert_eq!(Skill::WindAlignment.get_limit(), 3);
    assert_eq!(Skill::CarvingPro.get_jewel_size(), Some(1));
    assert_eq!(Skill::CarvingPro.get_limit(), 1);
}

#[test]
fn defaults() {
    assert_eq!(Gender::default(), Gender::Neutral);
    assert_eq!(Skill::default(), Skill::Botanist);
}

#[test]
fn pieces_are_equal_by_name() {
    let a = talisman_to_armor(&Talisman { name: "t".to_string(), skills: vec![(Skill::Botanist, 1)], slots: vec![1] });
    let b = talisman_to_armor(&Talisman { name: "t".to_string(), skills: vec![], slots: vec![] });
    let c = talisman_to_armor(&Talisman { name: "u".to_string(), skills: vec![(Skill::Botanist, 1)], slots: vec![1] });
    assert!(a == b);
    assert!(a != c);
}

#[test]
fn talisman_round_trip() {
    let t = Talisman { name: "charm".to_string(), skills: vec![(Skill::Earplugs, 2)], slots: vec![3, 1] };
    let a: Armor = talisman_to_armor(&t);
    assert_eq!(a.name, "charm");
    assert_eq!(a.skills, vec![(Skill::Earplugs, 2)]);
    assert_eq!(a.slots, vec![3, 1]);
    assert_eq!(a.gender, Gender::Neutral);
    assert_eq!(a.defense, 0);
    let back = armor_to_talisman(&a);
    assert_eq!(back.name, "charm");
    assert_eq!(back.skills, vec![(Skill::Earplugs, 2)]);
    assert_eq!(back.slots, vec![3, 1]);
}

#[test]
fn clone_keeps_every_field() {
    let a = Armor {
        name: "x".to_string(),
        skills: vec![(Skill::Guard, 2)],
        slots: vec![2],
        rare: 5,
        defense: 40,
        fire: -1,
        water: 2,
        thunder: -3,
        ice: 4,
        dragon: -5,
        gender: Gender::Female,
    };
    let b = a.clone();
    assert_eq!(b.name, "x");
    assert_eq!(b.skills, vec![(Skill::Guard, 2)]);
    assert_eq!(b.slots, vec![2]);
    assert_eq!((b.rare, b.defense, b.fire, b.water, b.thunder, b.ice, b.dragon), (5, 40, -1, 2, -3, 4, -5));
    assert_eq!(b.gender, Gender::Female);
}
