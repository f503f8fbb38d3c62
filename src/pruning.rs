//! Selection, in one pool of armor pieces, of the pieces worth trying.
use vstd::prelude::*;
use crate::armor_and_skills::{Armor, ArmorView, Gender, Skill};
use crate::dominance::{compare_armors, compare_spec, OddComparison};

verus! {

pub open spec fn armor_views(s: Seq<Armor>) -> Seq<ArmorView> {
    s.map_values(|a: Armor| a@)
}

/// The piece may be worn with the given gender.
pub open spec fn gender_fits(a: ArmorView, gender: Gender) -> bool {
    a.gender == Gender::Neutral || a.gender == gender
}

/// The piece has a slot that takes a jewel of skill `s`.
pub open spec fn fits_jewel(s: Skill, a: ArmorView) -> bool {
    match s.jewel_size_of() {
        Some(size) => exists|j: int| 0 <= j < a.slots.len() && #[trigger] a.slots[j] >= size,
        None => false,
    }
}

/// The piece grants skill `s` itself.
pub open spec fn grants(s: Skill, a: ArmorView) -> bool {
    exists|j: int| 0 <= j < a.skills.len() && #[trigger] a.skills[j].0 == s
}

/// The piece grants a wished skill, or takes a jewel of one.
pub open spec fn is_relevant(wishes: Seq<(Skill, u8)>, a: ArmorView) -> bool {
    exists|i: int|
        0 <= i < wishes.len() && (fits_jewel(#[trigger] wishes[i].0, a) || grants(wishes[i].0, a))
}

pub open spec fn candidate_pred(wishes: Seq<(Skill, u8)>, gender: Gender) -> spec_fn(
    ArmorView,
) -> bool {
    |a: ArmorView| gender_fits(a, gender) && is_relevant(wishes, a)
}

/// The pieces of the pool that the gender may wear and that are relevant to
/// the wishes, in pool order.
pub open spec fn candidates(wishes: Seq<(Skill, u8)>, pool: Seq<ArmorView>, gender: Gender) -> Seq<
    ArmorView,
> {
    pool.filter(candidate_pred(wishes, gender))
}

/// `a` is worse than none of `others`.
pub open spec fn unbeaten_pred(wishes: Seq<(Skill, u8)>, others: Seq<ArmorView>) -> spec_fn(
    ArmorView,
) -> bool {
    |a: ArmorView|
        forall|j: int|
            0 <= j < others.len() ==> compare_spec(wishes, a, #[trigger] others[j])
                != OddComparison::Worse
}

/// The candidates that are worse than no other candidate, in pool order.
pub open spec fn best_candidates(
    wishes: Seq<(Skill, u8)>,
    pool: Seq<ArmorView>,
    gender: Gender,
) -> Seq<ArmorView> {
    let c = candidates(wishes, pool, gender);
    c.filter(unbeaten_pred(wishes, c))
}

fn grants_skill(s: Skill, a: &Armor) -> (r: bool)
    ensures
        r == grants(s, a@),
{
    let mut j: usize = 0;
    while j < a.skills.len()
        invariant
            j <= a.skills@.len(),
            forall|k: int| 0 <= k < j ==> a.skills@[k].0 != s,
        decreases a.skills@.len() - j,
    {
        if a.skills[j].0 == s {
            assert(a@.skills[j as int].0 == s);
            return true;
        }
        j = j + 1;
    }
    false
}

fn fits_jewel_of(s: Skill, a: &Armor) -> (r: bool)
    ensures
        r == fits_jewel(s, a@),
{
    match s.get_jewel_size() {
        Some(size) => {
            let mut j: usize = 0;
            while j < a.slots.len()
                invariant
                    j <= a.slots@.len(),
                    s.jewel_size_of() == Some(size),
                    forall|k: int| 0 <= k < j ==> a.slots@[k] < size,
                decreases a.slots@.len() - j,
            {
                if a.slots[j] >= size {
                    assert(a@.slots[j as int] >= size);
                    return true;
                }
                j = j + 1;
            }
            false
        },
        None => false,
    }
}

fn relevant(wishes: &[(Skill, u8)], a: &Armor) -> (r: bool)
    ensures
        r == is_relevant(wishes@, a@),
{
    let mut i: usize = 0;
    while i < wishes.len()
        invariant
            i <= wishes@.len(),
            forall|k: int|
                0 <= k < i ==> !(fits_jewel(#[trigger] wishes@[k].0, a@) || grants(
                    wishes@[k].0,
                    a@,
                )),
        decreases wishes@.len() - i,
    {
        let s = wishes[i].0;
        if fits_jewel_of(s, a) || grants_skill(s, a) {
            return true;
        }
        i = i + 1;
    }
    false
}

/// Every element of a filtered sequence comes from the sequence.
pub proof fn lemma_filter_from<A>(s: Seq<A>, pred: spec_fn(A) -> bool)
    ensures
        forall|i: int| 0 <= i < s.filter(pred).len() ==> s.contains(#[trigger] s.filter(pred)[i]),
    decreases s.len(),
{
    reveal(Seq::filter);
    if s.len() > 0 {
        lemma_filter_from(s.drop_last(), pred);
        let f = s.filter(pred);
        assert forall|i: int| 0 <= i < f.len() implies s.contains(#[trigger] f[i]) by {
            if i < s.drop_last().filter(pred).len() {
                let x = s.drop_last().filter(pred)[i];
                assert(s.drop_last().contains(x));
                let k = choose|k: int| 0 <= k < s.drop_last().len() && s.drop_last()[k] == x;
                assert(s[k] == x);
            } else {
                assert(f[i] == s[s.len() - 1]);
            }
        }
    }
}

/// Filtering keeps a sequence whose elements all pass.
pub proof fn lemma_filter_all<A>(s: Seq<A>, pred: spec_fn(A) -> bool)
    requires
        forall|i: int| 0 <= i < s.len() ==> pred(#[trigger] s[i]),
    ensures
        s.filter(pred) == s,
    decreases s.len(),
{
    reveal(Seq::filter);
    if s.len() > 0 {
        lemma_filter_all(s.drop_last(), pred);
        assert(s.drop_last().push(s.last()) =~= s);
    }
}

proof fn lemma_filter_step<A>(s: Seq<A>, pred: spec_fn(A) -> bool, i: int)
    requires
        0 <= i < s.len(),
    ensures
        s.subrange(0, i + 1).filter(pred) == if pred(s[i]) {
            s.subrange(0, i).filter(pred).push(s[i])
        } else {
            s.subrange(0, i).filter(pred)
        },
{
    reveal(Seq::filter);
    assert(s.subrange(0, i + 1).drop_last() =~= s.subrange(0, i));
}

/// Keeps, from a pool, the pieces that the gender may wear, that are relevant
/// to the wishes, and that are worse than no other such piece.
pub fn search_best_candidates(wishes: &[(Skill, u8)], armors: &[Armor], gender: Gender) -> (r:
    Vec<Armor>)
    requires
        forall|i: int| 0 <= i < armors@.len() ==> (#[trigger] armors@[i]).wf(),
    ensures
        armor_views(r@) == best_candidates(wishes@, armor_views(armors@), gender),
{
    let ghost pool = armor_views(armors@);
    let ghost cpred = candidate_pred(wishes@, gender);
    let mut cands: Vec<&Armor> = Vec::new();
    let mut i: usize = 0;
    while i < armors.len()
        invariant
            i <= armors@.len(),
            pool == armor_views(armors@),
            cpred == candidate_pred(wishes@, gender),
            forall|k: int| 0 <= k < armors@.len() ==> (#[trigger] armors@[k]).wf(),
            cands@.map_values(|a: &Armor| a@) == pool.subrange(0, i as int).filter(cpred),
            forall|k: int| 0 <= k < cands@.len() ==> (#[trigger] cands@[k]).wf(),
        decreases armors@.len() - i,
    {
        let a = &armors[i];
        proof {
            lemma_filter_step(pool, cpred, i as int);
        }
        if (a.gender == Gender::Neutral || a.gender == gender) && relevant(wishes, a) {
            cands.push(a);
            proof {
                assert(cands@.map_values(|a: &Armor| a@) =~= pool.subrange(0, i as int).filter(
                    cpred,
                ).push(pool[i as int]));
            }
        }
        i = i + 1;
    }
    proof {
        assert(pool.subrange(0, i as int) =~= pool);
    }
    let ghost c = cands@.map_values(|a: &Armor| a@);
    let ghost upred = unbeaten_pred(wishes@, c);
    let mut r: Vec<Armor> = Vec::new();
    let mut i: usize = 0;
    while i < cands.len()
        invariant
            i <= cands@.len(),
            c == cands@.map_values(|a: &Armor| a@),
            upred == unbeaten_pred(wishes@, c),
            forall|k: int| 0 <= k < cands@.len() ==> (#[trigger] cands@[k]).wf(),
            armor_views(r@) == c.subrange(0, i as int).filter(upred),
        decreases cands@.len() - i,
    {
        let a = cands[i];
        let mut keep = true;
        let mut j: usize = 0;
        while j < cands.len()
            invariant
                j <= cands@.len(),
                i < cands@.len(),
                a == cands@[i as int],
                c == cands@.map_values(|a: &Armor| a@),
                forall|k: int| 0 <= k < cands@.len() ==> (#[trigger] cands@[k]).wf(),
                keep == forall|k: int|
                    0 <= k < j ==> compare_spec(wishes@, a@, #[trigger] c[k])
                        != OddComparison::Worse,
            decreases cands@.len() - j,
        {
            assert(c[j as int] == cands@[j as int]@);
            if compare_armors(wishes, a, cands[j]) == OddComparison::Worse {
                keep = false;
            }
            j = j + 1;
        }
        proof {
            lemma_filter_step(c, upred, i as int);
            assert(c[i as int] == a@);
        }
        if keep {
            r.push(a.clone());
            proof {
                assert(armor_views(r@) =~= c.subrange(0, i as int).filter(upred).push(a@));
            }
        }
        i = i + 1;
    }
    proof {
        assert(c.subrange(0, i as int) =~= c);
    }
    r
}

/// The pruned pool holds pieces of the pool only.
pub proof fn lemma_best_candidates_from(
    wishes: Seq<(Skill, u8)>,
    pool: Seq<ArmorView>,
    gender: Gender,
)
    ensures
        forall|i: int|
            0 <= i < best_candidates(wishes, pool, gender).len() ==> pool.contains(
                #[trigger] best_candidates(wishes, pool, gender)[i],
            ),
{
    let c = candidates(wishes, pool, gender);
    let best = best_candidates(wishes, pool, gender);
    lemma_filter_from(pool, candidate_pred(wishes, gender));
    lemma_filter_from(c, unbeaten_pred(wishes, c));
    assert forall|i: int| 0 <= i < best.len() implies pool.contains(#[trigger] best[i]) by {
        assert(c.contains(best[i]));
        let k = choose|k: int| 0 <= k < c.len() && c[k] == best[i];
        assert(pool.contains(c[k]));
    }
}

/// Pruning a pool that was already pruned keeps it as it is: a piece that is
/// worse than none of the candidates is worse than none of the survivors.
pub proof fn lemma_pruning_idempotent(
    wishes: Seq<(Skill, u8)>,
    pool: Seq<ArmorView>,
    gender: Gender,
)
    ensures
        best_candidates(wishes, best_candidates(wishes, pool, gender), gender) == best_candidates(
            wishes,
            pool,
            gender,
        ),
{
    let c = candidates(wishes, pool, gender);
    let best = best_candidates(wishes, pool, gender);
    let cpred = candidate_pred(wishes, gender);
    let upred = unbeaten_pred(wishes, c);
    lemma_filter_from(pool, cpred);
    lemma_filter_from(c, upred);
    assert forall|i: int| 0 <= i < best.len() implies #[trigger] cpred(best[i]) by {
        assert(c.contains(best[i]));
        let k = choose|k: int| 0 <= k < c.len() && c[k] == best[i];
        pool.lemma_filter_pred(cpred, k);
    }
    lemma_filter_all(best, cpred);
    assert(candidates(wishes, best, gender) == best);
    let upred2 = unbeaten_pred(wishes, best);
    assert forall|i: int| 0 <= i < best.len() implies #[trigger] upred2(best[i]) by {
        c.lemma_filter_pred(upred, i);
        assert forall|j: int| 0 <= j < best.len() implies compare_spec(
            wishes,
            best[i],
            #[trigger] best[j],
        ) != OddComparison::Worse by {
            assert(c.contains(best[j]));
            let k = choose|k: int| 0 <= k < c.len() && c[k] == best[j];
            assert(compare_spec(wishes, best[i], c[k]) != OddComparison::Worse);
        }
    }
    lemma_filter_all(best, upred2);
}

} // verus!
