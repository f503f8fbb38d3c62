//! Search of the builds that grant the wished skills: each pool is pruned,
//! then every combination of one piece (or none) per part is tried, jewels
//! are placed greedily, and the builds that work are kept without redundancy.
use vstd::prelude::*;
use std::ops::Range;
use crate::armor_and_skills::{Armor, ArmorView, Gender, Skill};
use crate::builds::{
    accept, add_build, build_total, build_views, lemma_accept_elements, lemma_accept_no_redundant,
    meets_wishes, no_redundant, part_total, parts_total, skill_amount, Build, BuildView, Jewels,
};
use crate::jewels::{
    all_wf, count_jewels, fill_progress, fill_views, jewels_total, lemma_place_all_progress,
    lemma_placed_covers, place_all, place_jewels, untouched, FillState, FillView, PartSlots,
    NB_PARTS,
};
use crate::product::{
    index_product, lemma_lex_product_in_range, lex_product, next_tuple, product_rest, range_ends,
    within,
};
use crate::pruning::{
    armor_views, best_candidates, lemma_best_candidates_from, search_best_candidates,
};

verus! {

/// The six pools of pieces: helmets, chests, arms, waists, legs, talismans.
pub struct AllArmorSlices<'a> {
    pub helmets: &'a [Armor],
    pub chests: &'a [Armor],
    pub arms: &'a [Armor],
    pub waists: &'a [Armor],
    pub legs: &'a [Armor],
    pub talismans: &'a [Armor],
}

impl<'a> AllArmorSlices<'a> {
    /// The pools, in part order.
    pub open spec fn pools(&self) -> Seq<Seq<ArmorView>> {
        seq![
            armor_views(self.helmets@),
            armor_views(self.chests@),
            armor_views(self.arms@),
            armor_views(self.waists@),
            armor_views(self.legs@),
            armor_views(self.talismans@),
        ]
    }

    /// Every piece has at most three slots, and a pool's choices (its
    /// pieces and no piece) can be counted.
    pub open spec fn wf(&self) -> bool {
        &&& forall|p: int, i: int|
            0 <= p < 6 && 0 <= i < self.pools()[p].len() ==> (#[trigger] self.pools()[p][i]).wf()
        &&& forall|p: int| 0 <= p < 6 ==> (#[trigger] self.pools()[p]).len() < usize::MAX
    }
}

/// Levels of `s` that the first `n` chosen pieces grant.
pub open spec fn items_amount(items: Seq<Option<ArmorView>>, s: Skill, n: int) -> int
    decreases n,
{
    if n <= 0 {
        0
    } else {
        items_amount(items, s, n - 1) + match items[n - 1] {
            Some(a) => skill_amount(a.skills, s),
            None => 0,
        }
    }
}

/// Levels of `s` that the chosen pieces grant.
pub open spec fn native_amount(items: Seq<Option<ArmorView>>, s: Skill) -> int {
    items_amount(items, s, items.len() as int)
}

/// For each wish, the levels that the chosen pieces leave to jewels.
pub open spec fn residual(wishes: Seq<(Skill, u8)>, items: Seq<Option<ArmorView>>) -> Seq<u8> {
    Seq::new(
        wishes.len(),
        |i: int|
            if wishes[i].1 as int > native_amount(items, wishes[i].0) {
                (wishes[i].1 as int - native_amount(items, wishes[i].0)) as u8
            } else {
                0u8
            },
    )
}

pub open spec fn opt_views(s: Seq<Option<&Armor>>) -> Seq<Option<ArmorView>> {
    s.map_values(
        |o: Option<&Armor>|
            match o {
                Some(a) => Some(a@),
                None => None,
            },
    )
}

/// The free slots of a chosen piece, padded with zeros to three; no slots
/// for no piece.
pub open spec fn slots_of(item: Option<ArmorView>) -> Seq<u8> {
    match item {
        Some(a) => Seq::new(3, |k: int| if k < a.slots.len() { a.slots[k] } else { 0u8 }),
        None => seq![0u8, 0u8, 0u8],
    }
}

pub open spec fn no_jewels() -> Seq<Option<Skill>> {
    seq![None, None, None]
}

/// Slots before any jewel is placed: those of the six chosen pieces, then
/// those of the weapon.
pub open spec fn initial_fill(items: Seq<Option<ArmorView>>, weapon: Seq<u8>) -> Seq<FillView> {
    Seq::new(
        NB_PARTS as nat,
        |p: int|
            FillView {
                free: if p < 6 {
                    slots_of(items[p])
                } else {
                    weapon
                },
                jewels: no_jewels(),
                used: 0,
            },
    )
}

/// The build made of the chosen pieces when jewels can grant what they
/// leave of every wish.
pub open spec fn try_build(
    wishes: Seq<(Skill, u8)>,
    items: Seq<Option<ArmorView>>,
    weapon: Seq<u8>,
) -> Option<BuildView> {
    let st = place_all((initial_fill(items, weapon), residual(wishes, items)), wishes);
    if forall|i: int| 0 <= i < wishes.len() ==> #[trigger] st.1[i] == 0 {
        Some(
            BuildView {
                parts: Seq::new(
                    6,
                    |k: int|
                        match items[k] {
                            Some(a) => Some((a, st.0[k].jewels)),
                            None => None,
                        },
                ),
                weapon_jewels: st.0[6].jewels,
            },
        )
    } else {
        None
    }
}

/// Makes a copy of the slots of a chosen piece, to be written in.
pub fn extract_slots_copy(item: &Option<&Armor>) -> (r: [u8; 3])
    requires
        match *item {
            Some(a) => a.wf(),
            None => true,
        },
    ensures
        r@ == slots_of(
            match *item {
                Some(a) => Some(a@),
                None => None,
            },
        ),
{
    match item {
        Some(armor) => {
            let mut slots: [u8; 3] = [0, 0, 0];
            let mut key: usize = 0;
            while key < armor.slots.len()
                invariant
                    armor.slots@.len() <= 3,
                    key <= armor.slots@.len(),
                    slots@.len() == 3,
                    forall|k: int| 0 <= k < key ==> slots@[k] == armor.slots@[k],
                    forall|k: int| key <= k < 3 ==> slots@[k] == 0,
                decreases armor.slots@.len() - key,
            {
                slots[key] = armor.slots[key];
                key = key + 1;
            }
            proof {
                assert(slots@ =~= slots_of(Some(armor@)));
            }
            slots
        },
        None => {
            let r: [u8; 3] = [0, 0, 0];
            proof {
                assert(r@ =~= slots_of(None));
            }
            r
        },
    }
}

/// Every item wrapped in `Some`, then `None`: the choices for one part,
/// "no piece" included.
pub fn optionify_slice_and_add_none<T>(slice: &[T]) -> (r: Vec<Option<&T>>)
    ensures
        r@.len() == slice@.len() + 1,
        forall|c: int| 0 <= c < slice@.len() ==> r@[c] == Some(&slice@[c]),
        r@[slice@.len() as int] is None,
{
    let mut r: Vec<Option<&T>> = Vec::new();
    let mut i: usize = 0;
    while i < slice.len()
        invariant
            i <= slice@.len(),
            r@.len() == i,
            forall|c: int| 0 <= c < i ==> r@[c] == Some(&slice@[c]),
        decreases slice@.len() - i,
    {
        r.push(Some(&slice[i]));
        i = i + 1;
    }
    r.push(None);
    r
}

/// Levels of the wishes that the chosen pieces do not grant.
fn residual_wishes(wishes: &[(Skill, u8)], chosen: &Vec<Option<&Armor>>) -> (r: Vec<u8>)
    ensures
        r@ == residual(wishes@, opt_views(chosen@)),
{
    let ghost items = opt_views(chosen@);
    let mut r: Vec<u8> = Vec::new();
    let mut i: usize = 0;
    while i < wishes.len()
        invariant
            i <= wishes@.len(),
            items == opt_views(chosen@),
            r@ == residual(wishes@, items).subrange(0, i as int),
        decreases wishes@.len() - i,
    {
        let (skill, amount) = wishes[i];
        let mut left: u8 = amount;
        let mut k: usize = 0;
        while k < chosen.len()
            invariant
                k <= chosen@.len(),
                items == opt_views(chosen@),
                left as int == if amount as int > items_amount(items, skill, k as int) {
                    amount as int - items_amount(items, skill, k as int)
                } else {
                    0
                },
            decreases chosen@.len() - k,
        {
            match chosen[k] {
                Some(armor) => {
                    let ghost base = items_amount(items, skill, k as int);
                    let mut j: usize = 0;
                    while j < armor.skills.len()
                        invariant
                            j <= armor.skills@.len(),
                            left as int == if amount as int > base + skill_amount(
                                armor.skills@.subrange(0, j as int),
                                skill,
                            ) {
                                amount as int - (base + skill_amount(
                                    armor.skills@.subrange(0, j as int),
                                    skill,
                                ))
                            } else {
                                0
                            },
                        decreases armor.skills@.len() - j,
                    {
                        proof {
                            assert(armor.skills@.subrange(0, j as int + 1).drop_last()
                                =~= armor.skills@.subrange(0, j as int));
                        }
                        let (s, a) = armor.skills[j];
                        if s == skill {
                            if a > left {
                                left = 0;
                            } else {
                                left = left - a;
                            }
                        }
                        j = j + 1;
                    }
                    proof {
                        assert(armor.skills@.subrange(0, j as int) =~= armor.skills@);
                        assert(items[k as int] == Some(armor@));
                    }
                },
                None => {
                    proof {
                        assert(items[k as int] is None);
                    }
                },
            }
            k = k + 1;
        }
        r.push(left);
        i = i + 1;
        proof {
            assert(r@ =~= residual(wishes@, items).subrange(0, i as int));
        }
    }
    proof {
        assert(residual(wishes@, items).subrange(0, i as int) =~= residual(wishes@, items));
    }
    r
}

/// The kept builds once the chosen pieces are tried.
pub open spec fn consider(
    acc: Seq<BuildView>,
    wishes: Seq<(Skill, u8)>,
    weapon: Seq<u8>,
    items: Seq<Option<ArmorView>>,
) -> Seq<BuildView> {
    match try_build(wishes, items, weapon) {
        Some(b) => accept(acc, b),
        None => acc,
    }
}

fn attach(item: Option<&Armor>, jewels: Jewels) -> (r: Option<(Armor, Jewels)>)
    ensures
        crate::builds::part_view(r) == match item {
            Some(a) => Some((a@, jewels@)),
            None => None::<(ArmorView, Seq<Option<Skill>>)>,
        },
{
    match item {
        Some(armor) => Some((armor.clone(), jewels)),
        None => None,
    }
}

fn all_zero(v: &Vec<u8>) -> (r: bool)
    ensures
        r == forall|j: int| 0 <= j < v@.len() ==> #[trigger] v@[j] == 0,
{
    let mut i: usize = 0;
    while i < v.len()
        invariant
            i <= v@.len(),
            forall|j: int| 0 <= j < i ==> #[trigger] v@[j] == 0,
        decreases v@.len() - i,
    {
        if v[i] != 0 {
            return false;
        }
        i = i + 1;
    }
    true
}

fn consider_exec(
    wishes: &[(Skill, u8)],
    weapon_slots: [u8; 3],
    chosen: &Vec<Option<&Armor>>,
    builds: &mut Vec<Build>,
)
    requires
        chosen@.len() == 6,
        forall|k: int|
            0 <= k < 6 ==> match #[trigger] chosen@[k] {
                Some(a) => a.wf(),
                None => true,
            },
    ensures
        build_views(final(builds)@) == consider(
            build_views(old(builds)@),
            wishes@,
            weapon_slots@,
            opt_views(chosen@),
        ),
{
    let ghost items = opt_views(chosen@);
    let mut lefts = residual_wishes(wishes, chosen);
    let mut parts: Vec<PartSlots> = Vec::new();
    let mut k: usize = 0;
    while k < 6
        invariant
            k <= 6,
            chosen@.len() == 6,
            items == opt_views(chosen@),
            forall|k: int|
                0 <= k < 6 ==> match #[trigger] chosen@[k] {
                    Some(a) => a.wf(),
                    None => true,
                },
            fill_views(parts@) == initial_fill(items, weapon_slots@).subrange(0, k as int),
        decreases 6 - k,
    {
        let free = extract_slots_copy(&chosen[k]);
        let part = PartSlots { free, jewels: [None, None, None], used: 0 };
        proof {
            assert(part@.jewels =~= no_jewels());
            assert(items[k as int] == match chosen@[k as int] {
                Some(a) => Some(a@),
                None => None,
            });
            assert(part@ == initial_fill(items, weapon_slots@)[k as int]);
        }
        let ghost prev = fill_views(parts@);
        parts.push(part);
        k = k + 1;
        proof {
            assert(fill_views(parts@) =~= prev.push(part@));
            assert(fill_views(parts@) =~= initial_fill(items, weapon_slots@).subrange(0, k as int));
        }
    }
    let weapon_part = PartSlots { free: weapon_slots, jewels: [None, None, None], used: 0 };
    proof {
        assert(weapon_part@.jewels =~= no_jewels());
        assert(weapon_part@ == initial_fill(items, weapon_slots@)[6]);
    }
    let ghost prev = fill_views(parts@);
    parts.push(weapon_part);
    proof {
        assert(fill_views(parts@) =~= prev.push(weapon_part@));
        assert(prev =~= initial_fill(items, weapon_slots@).subrange(0, 6));
        assert(fill_views(parts@) =~= initial_fill(items, weapon_slots@));
        assert forall|p: int| 0 <= p < 7 implies (#[trigger] fill_views(parts@)[p]).wf() by {
            assert(fill_views(parts@)[p].used == 0);
        }
    }
    let ghost start: FillState = (fill_views(parts@), lefts@);
    place_jewels(&mut parts, wishes, &mut lefts);
    let ghost st = place_all(start, wishes@);
    assert(start == (initial_fill(items, weapon_slots@), residual(wishes@, items)));
    assert(lefts@ == st.1 && fill_views(parts@) == st.0);
    if !all_zero(&lefts) {
        let ghost j = choose|j: int| 0 <= j < lefts@.len() && lefts@[j] != 0;
        assert(st.1[j] != 0);
        assert(try_build(wishes@, items, weapon_slots@) is None);
        return;
    }
    let build = Build {
        helmet: attach(chosen[0], parts[0].jewels),
        chest: attach(chosen[1], parts[1].jewels),
        arm: attach(chosen[2], parts[2].jewels),
        waist: attach(chosen[3], parts[3].jewels),
        leg: attach(chosen[4], parts[4].jewels),
        talisman: attach(chosen[5], parts[5].jewels),
        weapon_jewels: parts[6].jewels,
    };
    proof {
        let b = try_build(wishes@, items, weapon_slots@);
        assert(b is Some);
        assert(build@.parts =~= b->0.parts);
    }
    add_build(builds, build);
}

/// The choices for one part: each piece of the pool, then no piece.
pub open spec fn choice_seq(pool: Seq<ArmorView>) -> Seq<Option<ArmorView>> {
    Seq::new(pool.len() + 1, |c: int| if c < pool.len() { Some(pool[c]) } else { None })
}

/// Number of choices for each part: each piece of its pool, and no piece.
pub open spec fn choice_counts(pools: Seq<Seq<ArmorView>>) -> Seq<usize> {
    Seq::new(6, |l: int| (pools[l].len() + 1) as usize)
}

/// The choices that a tuple of indices picks, one per part.
pub open spec fn tuple_items(pools: Seq<Seq<ArmorView>>, t: Seq<usize>) -> Seq<Option<ArmorView>> {
    Seq::new(6, |l: int| choice_seq(pools[l])[t[l] as int])
}

/// The kept builds once the combinations that `tuples` picks are tried, in
/// order.
pub open spec fn run(
    acc: Seq<BuildView>,
    wishes: Seq<(Skill, u8)>,
    weapon: Seq<u8>,
    pools: Seq<Seq<ArmorView>>,
    tuples: Seq<Seq<usize>>,
) -> Seq<BuildView>
    decreases tuples.len(),
{
    if tuples.len() == 0 {
        acc
    } else {
        consider(
            run(acc, wishes, weapon, pools, tuples.drop_last()),
            wishes,
            weapon,
            tuple_items(pools, tuples.last()),
        )
    }
}

/// The builds found by trying every combination of the pools, in
/// lexicographic order of the choices (the last part varying fastest).
pub open spec fn brute_force_spec(
    wishes: Seq<(Skill, u8)>,
    pools: Seq<Seq<ArmorView>>,
    weapon: Seq<u8>,
) -> Seq<BuildView> {
    run(Seq::empty(), wishes, weapon, pools, lex_product(choice_counts(pools)))
}

/// The builds found by trying every combination of the pruned pools.
pub open spec fn search_spec(
    wishes: Seq<(Skill, u8)>,
    pools: Seq<Seq<ArmorView>>,
    gender: Gender,
    weapon: Seq<u8>,
) -> Seq<BuildView> {
    brute_force_spec(
        wishes,
        Seq::new(6, |l: int| best_candidates(wishes, pools[l], gender)),
        weapon,
    )
}

pub open spec fn item_wf(o: Option<ArmorView>) -> bool {
    match o {
        Some(a) => a.wf(),
        None => true,
    }
}

fn choices_for<'a>(slice: &'a [Armor]) -> (r: Vec<Option<&'a Armor>>)
    ensures
        opt_views(r@) == choice_seq(armor_views(slice@)),
{
    let r = optionify_slice_and_add_none(slice);
    proof {
        assert(opt_views(r@) =~= choice_seq(armor_views(slice@)));
    }
    r
}

/// The choices that the tuple of indices `t` picks, one per part.
fn pick_choices<'a>(
    choices: &Vec<Vec<Option<&'a Armor>>>,
    t: &Vec<usize>,
    pools: Ghost<Seq<Seq<ArmorView>>>,
) -> (r: Vec<Option<&'a Armor>>)
    requires
        choices@.len() == 6,
        pools@.len() == 6,
        forall|k: int|
            0 <= k < 6 ==> opt_views(#[trigger] choices@[k]@) == choice_seq(pools@[k]),
        forall|p: int, i: int|
            0 <= p < 6 && 0 <= i < pools@[p].len() ==> (#[trigger] pools@[p][i]).wf(),
        t@.len() == 6,
        forall|k: int| 0 <= k < 6 ==> #[trigger] t@[k] < choices@[k]@.len(),
    ensures
        r@.len() == 6,
        opt_views(r@) == tuple_items(pools@, t@),
        forall|k: int|
            0 <= k < 6 ==> match #[trigger] r@[k] {
                Some(a) => a.wf(),
                None => true,
            },
{
    let mut r: Vec<Option<&Armor>> = Vec::new();
    let mut l: usize = 0;
    while l < 6
        invariant
            l <= 6,
            t@.len() == 6,
            choices@.len() == 6,
            pools@.len() == 6,
            forall|k: int|
                0 <= k < 6 ==> opt_views(#[trigger] choices@[k]@) == choice_seq(pools@[k]),
            forall|p: int, i: int|
                0 <= p < 6 && 0 <= i < pools@[p].len() ==> (#[trigger] pools@[p][i]).wf(),
            forall|k: int| 0 <= k < 6 ==> #[trigger] t@[k] < choices@[k]@.len(),
            r@.len() == l,
            forall|k: int| 0 <= k < l ==> #[trigger] opt_views(r@)[k] == tuple_items(pools@, t@)[k],
            forall|k: int|
                0 <= k < l ==> match #[trigger] r@[k] {
                    Some(a) => a.wf(),
                    None => true,
                },
        decreases 6 - l,
    {
        let c = choices[l][t[l]];
        let ghost i = t@[l as int] as int;
        proof {
            assert(opt_views(choices@[l as int]@)[i] == choice_seq(pools@[l as int])[i]);
            if i < pools@[l as int].len() {
                assert(pools@[l as int][i].wf());
            }
        }
        let ghost prev = r@;
        r.push(c);
        proof {
            assert(opt_views(r@) =~= opt_views(prev).push(
                match c {
                    Some(a) => Some(a@),
                    None => None,
                },
            ));
        }
        l = l + 1;
    }
    proof {
        assert(opt_views(r@) =~= tuple_items(pools@, t@));
    }
    r
}

/// Tries every combination of one piece (or none) per pool, in order, the
/// last pool varying fastest. For each, the wishes lose what the pieces grant;
/// jewels are placed for the rest; when every wish is met, the build is
/// offered to the kept list, which drops builds that a more general build
/// (one with fewer pieces) makes redundant.
pub fn brute_force_search_builds(
    wishes: &[(Skill, u8)],
    all_armor_slices: AllArmorSlices,
    weapon_slots: [u8; 3],
) -> (r: Vec<Build>)
    requires
        all_armor_slices.wf(),
    ensures
        build_views(r@) == brute_force_spec(wishes@, all_armor_slices.pools(), weapon_slots@),
{
    let ghost pools = all_armor_slices.pools();
    let mut choices: Vec<Vec<Option<&Armor>>> = Vec::new();
    choices.push(choices_for(all_armor_slices.helmets));
    choices.push(choices_for(all_armor_slices.chests));
    choices.push(choices_for(all_armor_slices.arms));
    choices.push(choices_for(all_armor_slices.waists));
    choices.push(choices_for(all_armor_slices.legs));
    choices.push(choices_for(all_armor_slices.talismans));
    let ghost counts = choice_counts(pools);
    let mut ranges: Vec<Range<usize>> = Vec::new();
    let mut l: usize = 0;
    while l < 6
        invariant
            l <= 6,
            choices@.len() == 6,
            pools == all_armor_slices.pools(),
            forall|k: int|
                0 <= k < 6 ==> opt_views(#[trigger] choices@[k]@) == choice_seq(pools[k]),
            ranges@.len() == l,
            counts == choice_counts(pools),
            forall|k: int|
                0 <= k < l ==> (#[trigger] ranges@[k]).start == 0 && ranges@[k].end == counts[k],
        decreases 6 - l,
    {
        proof {
            assert(opt_views(choices@[l as int]@).len() == choice_seq(pools[l as int]).len());
        }
        ranges.push(0..choices[l].len());
        l = l + 1;
    }
    proof {
        assert(range_ends(ranges@) =~= counts);
        lemma_lex_product_in_range(counts);
    }
    let ghost all = lex_product(counts);
    let mut product = index_product(ranges);
    let mut builds: Vec<Build> = Vec::new();
    let ghost mut done: Seq<Seq<usize>> = Seq::empty();
    proof {
        assert(build_views(builds@) =~= Seq::<BuildView>::empty());
        assert(done + product_rest(product) =~= all);
    }
    loop
        invariant_except_break
            done + product_rest(product) == all,
        invariant
            choices@.len() == 6,
            pools == all_armor_slices.pools(),
            all_armor_slices.wf(),
            counts == choice_counts(pools),
            all == lex_product(counts),
            forall|k: int|
                0 <= k < 6 ==> opt_views(#[trigger] choices@[k]@) == choice_seq(pools[k]),
            forall|i: int| 0 <= i < all.len() ==> within(#[trigger] all[i], counts),
            build_views(builds@) == run(Seq::empty(), wishes@, weapon_slots@, pools, done),
        ensures
            build_views(builds@) == run(Seq::empty(), wishes@, weapon_slots@, pools, all),
        decreases product_rest(product).len(),
    {
        let ghost rest = product_rest(product);
        match next_tuple(&mut product) {
            Some(t) => {
                proof {
                    assert(all[done.len() as int] == rest[0]);
                    assert(within(t@, counts));
                    assert forall|k: int|
                        0 <= k < 6 implies #[trigger] t@[k] < choices@[k]@.len() by {
                        assert(opt_views(choices@[k]@).len() == choice_seq(pools[k]).len());
                    }
                }
                let chosen = pick_choices(&choices, &t, Ghost(pools));
                consider_exec(wishes, weapon_slots, &chosen, &mut builds);
                proof {
                    assert(done.push(t@).drop_last() =~= done);
                    done = done.push(t@);
                    assert(done + product_rest(product) =~= all);
                }
            },
            None => {
                proof {
                    assert(done =~= all);
                }
                break;
            },
        }
    }
    builds
}

proof fn lemma_pool_wf(s: Seq<Armor>)
    requires
        forall|i: int| 0 <= i < armor_views(s).len() ==> (#[trigger] armor_views(s)[i]).wf(),
    ensures
        forall|i: int| 0 <= i < s.len() ==> (#[trigger] s[i]).wf(),
{
    assert forall|i: int| 0 <= i < s.len() implies (#[trigger] s[i]).wf() by {
        assert(armor_views(s)[i].wf());
    }
}

proof fn lemma_pruned_wf(wishes: Seq<(Skill, u8)>, pool: Seq<ArmorView>, gender: Gender)
    requires
        forall|i: int| 0 <= i < pool.len() ==> (#[trigger] pool[i]).wf(),
    ensures
        forall|i: int|
            0 <= i < best_candidates(wishes, pool, gender).len() ==> (
            #[trigger] best_candidates(wishes, pool, gender)[i]).wf(),
{
    lemma_best_candidates_from(wishes, pool, gender);
    assert forall|i: int| 0 <= i < best_candidates(wishes, pool, gender).len() implies (
    #[trigger] best_candidates(wishes, pool, gender)[i]).wf() by {
        let x = best_candidates(wishes, pool, gender)[i];
        assert(pool.contains(x));
        let k = choose|k: int| 0 <= k < pool.len() && pool[k] == x;
        assert(pool[k].wf());
    }
}

/// Prunes each pool (see [`search_best_candidates`]), then searches the
/// builds among the pruned pools (see [`brute_force_search_builds`]).
pub fn pre_selection_then_brute_force_search(
    wishes: &[(Skill, u8)],
    all_armor_slices: AllArmorSlices,
    gender: Gender,
    weapon_slots: [u8; 3],
) -> (r: Vec<Build>)
    requires
        all_armor_slices.wf(),
    ensures
        build_views(r@) == search_spec(wishes@, all_armor_slices.pools(), gender, weapon_slots@),
{
    let ghost pools = all_armor_slices.pools();
    proof {
        assert forall|l: int| 0 <= l < 6 implies forall|i: int|
            0 <= i < (#[trigger] pools[l]).len() ==> (#[trigger] pools[l][i]).wf() by {}
        assert(pools[0] == armor_views(all_armor_slices.helmets@));
        lemma_pool_wf(all_armor_slices.helmets@);
        assert(pools[1] == armor_views(all_armor_slices.chests@));
        lemma_pool_wf(all_armor_slices.chests@);
        assert(pools[2] == armor_views(all_armor_slices.arms@));
        lemma_pool_wf(all_armor_slices.arms@);
        assert(pools[3] == armor_views(all_armor_slices.waists@));
        lemma_pool_wf(all_armor_slices.waists@);
        assert(pools[4] == armor_views(all_armor_slices.legs@));
        lemma_pool_wf(all_armor_slices.legs@);
        assert(pools[5] == armor_views(all_armor_slices.talismans@));
        lemma_pool_wf(all_armor_slices.talismans@);
    }
    let helmets = search_best_candidates(wishes, all_armor_slices.helmets, gender);
    let chests = search_best_candidates(wishes, all_armor_slices.chests, gender);
    let arms = search_best_candidates(wishes, all_armor_slices.arms, gender);
    let waists = search_best_candidates(wishes, all_armor_slices.waists, gender);
    let legs = search_best_candidates(wishes, all_armor_slices.legs, gender);
    let talismans = search_best_candidates(wishes, all_armor_slices.talismans, gender);
    let pruned = AllArmorSlices {
        helmets: helmets.as_slice(),
        chests: chests.as_slice(),
        arms: arms.as_slice(),
        waists: waists.as_slice(),
        legs: legs.as_slice(),
        talismans: talismans.as_slice(),
    };
    let ghost best = Seq::new(6, |l: int| best_candidates(wishes@, pools[l], gender));
    proof {
        assert(pruned.pools() =~= best);
        assert forall|l: int| 0 <= l < 6 implies forall|i: int|
            0 <= i < (#[trigger] best[l]).len() ==> (#[trigger] best[l][i]).wf() by {
            assert(forall|i: int| 0 <= i < pools[l].len() ==> (#[trigger] pools[l][i]).wf());
            lemma_pruned_wf(wishes@, pools[l], gender);
        }
    }
    brute_force_search_builds(wishes, pruned, weapon_slots)
}

proof fn lemma_run_no_redundant(
    acc: Seq<BuildView>,
    wishes: Seq<(Skill, u8)>,
    weapon: Seq<u8>,
    pools: Seq<Seq<ArmorView>>,
    tuples: Seq<Seq<usize>>,
)
    requires
        no_redundant(acc),
    ensures
        no_redundant(run(acc, wishes, weapon, pools, tuples)),
    decreases tuples.len(),
{
    if tuples.len() > 0 {
        lemma_run_no_redundant(acc, wishes, weapon, pools, tuples.drop_last());
        let prev = run(acc, wishes, weapon, pools, tuples.drop_last());
        match try_build(wishes, tuple_items(pools, tuples.last()), weapon) {
            Some(b) => lemma_accept_no_redundant(prev, b),
            None => {},
        }
    }
}

/// No build found by the search is more general than another one: none is a
/// found build with more pieces.
pub proof fn lemma_search_no_redundant(
    wishes: Seq<(Skill, u8)>,
    pools: Seq<Seq<ArmorView>>,
    gender: Gender,
    weapon: Seq<u8>,
)
    ensures
        no_redundant(search_spec(wishes, pools, gender, weapon)),
{
    let best = Seq::new(6, |l: int| best_candidates(wishes, pools[l], gender));
    lemma_run_no_redundant(Seq::empty(), wishes, weapon, best, lex_product(choice_counts(best)));
}

proof fn lemma_skill_amount_nonneg(skills: Seq<(Skill, u8)>, s: Skill)
    ensures
        skill_amount(skills, s) >= 0,
    decreases skills.len(),
{
    if skills.len() > 0 {
        lemma_skill_amount_nonneg(skills.drop_last(), s);
    }
}

proof fn lemma_items_amount_nonneg(items: Seq<Option<ArmorView>>, s: Skill, n: int)
    ensures
        items_amount(items, s, n) >= 0,
    decreases n,
{
    if n > 0 {
        lemma_items_amount_nonneg(items, s, n - 1);
        if let Some(a) = items[n - 1] {
            lemma_skill_amount_nonneg(a.skills, s);
        }
    }
}

proof fn lemma_parts_total_split(
    b: BuildView,
    items: Seq<Option<ArmorView>>,
    fill: Seq<FillView>,
    s: Skill,
    n: int,
)
    requires
        0 <= n <= 6,
        items.len() == 6,
        fill.len() == NB_PARTS,
        b.parts.len() == 6,
        forall|k: int|
            0 <= k < 6 ==> #[trigger] b.parts[k] == match items[k] {
                Some(a) => Some((a, fill[k].jewels)),
                None => None,
            },
        forall|k: int|
            0 <= k < 6 && items[k] is None ==> count_jewels(#[trigger] fill[k].jewels, s) == 0,
    ensures
        parts_total(b.parts, s, n) == items_amount(items, s, n) + jewels_total(fill, s, n),
    decreases n,
{
    if n > 0 {
        lemma_parts_total_split(b, items, fill, s, n - 1);
        let k = n - 1;
        assert(b.parts[k] == match items[k] {
            Some(a) => Some((a, fill[k].jewels)),
            None => None,
        });
        if items[k] is None {
            assert(count_jewels(fill[k].jewels, s) == 0);
        }
    }
}

/// A build made of chosen pieces grants every wished level.
proof fn lemma_try_build_sound(
    wishes: Seq<(Skill, u8)>,
    items: Seq<Option<ArmorView>>,
    weapon: Seq<u8>,
)
    requires
        items.len() == 6,
        weapon.len() == 3,
    ensures
        try_build(wishes, items, weapon) matches Some(b) ==> meets_wishes(b, wishes),
{
    let init = initial_fill(items, weapon);
    let st0: FillState = (init, residual(wishes, items));
    assert forall|p: int| 0 <= p < init.len() implies (#[trigger] init[p]).wf() by {
        assert(init[p].free.len() == 3);
    }
    lemma_place_all_progress(st0, wishes);
    let st = place_all(st0, wishes);
    if let Some(b) = try_build(wishes, items, weapon) {
        assert forall|i: int| 0 <= i < wishes.len() implies build_total(b, #[trigger] wishes[i].0)
            >= wishes[i].1 by {
            let s = wishes[i].0;
            assert forall|k: int| 0 <= k < 6 && items[k] is None implies count_jewels(
                #[trigger] st.0[k].jewels,
                s,
            ) == 0 by {
                assert(untouched(init[k]));
                assert(st.0[k] == init[k]);
            }
            lemma_parts_total_split(b, items, st.0, s, 6);
            assert(jewels_total(init, s, 7) == 0) by {
                reveal_with_fuel(jewels_total, 8);
            }
            assert(jewels_total(st.0, s, 7) == jewels_total(st.0, s, 6) + count_jewels(
                st.0[6].jewels,
                s,
            ));
            assert forall|j: int| 0 <= j < wishes.len() implies #[trigger] st.1[j] <= st0.1[j] by {}
            lemma_placed_covers(wishes, st0.1, st.1, i, wishes.len() as int);
            assert(st.1[i] == 0);
            let placed_s = crate::jewels::placed(wishes, st0.1, st.1, s, wishes.len() as int);
            assert(jewels_total(st.0, s, 7) == placed_s);
            assert(placed_s >= st0.1[i]);
            assert(b.weapon_jewels == st.0[6].jewels);
            assert(parts_total(b.parts, s, 6) == items_amount(items, s, 6) + jewels_total(
                st.0,
                s,
                6,
            ));
            assert(build_total(b, s) == items_amount(items, s, 6) + jewels_total(st.0, s, 7));
            assert(st0.1[i] == residual(wishes, items)[i]);
            lemma_items_amount_nonneg(items, s, 6);
        }
    }
}

pub open spec fn all_meet(s: Seq<BuildView>, wishes: Seq<(Skill, u8)>) -> bool {
    forall|i: int| 0 <= i < s.len() ==> meets_wishes(#[trigger] s[i], wishes)
}

proof fn lemma_run_sound(
    acc: Seq<BuildView>,
    wishes: Seq<(Skill, u8)>,
    weapon: Seq<u8>,
    pools: Seq<Seq<ArmorView>>,
    tuples: Seq<Seq<usize>>,
)
    requires
        all_meet(acc, wishes),
        weapon.len() == 3,
    ensures
        all_meet(run(acc, wishes, weapon, pools, tuples), wishes),
    decreases tuples.len(),
{
    if tuples.len() > 0 {
        lemma_run_sound(acc, wishes, weapon, pools, tuples.drop_last());
        let prev = run(acc, wishes, weapon, pools, tuples.drop_last());
        let items = tuple_items(pools, tuples.last());
        lemma_try_build_sound(wishes, items, weapon);
        if let Some(b) = try_build(wishes, items, weapon) {
            lemma_accept_elements(prev, b);
            let r = accept(prev, b);
            assert forall|p: int|
                0 <= p < r.len() implies meets_wishes(#[trigger] r[p], wishes) by {
                if r[p] != b {
                    assert(prev.contains(r[p]));
                    let j = choose|j: int| 0 <= j < prev.len() && prev[j] == r[p];
                    assert(meets_wishes(prev[j], wishes));
                }
            }
        }
    }
}

/// Every build found by the search grants, counting its pieces' skills and
/// all its jewels, at least the wished level of every wished skill.
pub proof fn lemma_search_sound(
    wishes: Seq<(Skill, u8)>,
    pools: Seq<Seq<ArmorView>>,
    gender: Gender,
    weapon: Seq<u8>,
)
    requires
        weapon.len() == 3,
    ensures
        all_meet(search_spec(wishes, pools, gender, weapon), wishes),
{
    let best = Seq::new(6, |l: int| best_candidates(wishes, pools[l], gender));
    lemma_run_sound(Seq::empty(), wishes, weapon, best, lex_product(choice_counts(best)));
}

} // verus!
