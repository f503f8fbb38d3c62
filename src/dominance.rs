//! Comparison of two armor pieces with respect to a list of wished skills.
use vstd::prelude::*;
use vstd::relations::{sorted_by, total_ordering};
use crate::armor_and_skills::{Armor, ArmorView, Skill};

verus! {

/// Outcome of comparing two pieces. Pieces that cannot be ranked are not
/// "equal": a piece with two size-1 slots and one with a single size-3 slot
/// are each better for some uses, and this relation is not transitive.
#[derive(Debug, Clone, Copy, PartialEq, Eq, Structural)]
pub enum OddComparison {
    Better,
    Worse,
    Undefined,
}

/// The size of the `k`-th slot once `s` is right-aligned in a window of
/// three slots, missing slots counting as size 0.
pub open spec fn padded(s: Seq<u8>, k: int) -> int {
    if k >= 3 - s.len() {
        s[k - (3 - s.len())] as int
    } else {
        0
    }
}

pub open spec fn slot_diff(s0: Seq<u8>, s1: Seq<u8>, k: int) -> int {
    padded(s0, k) - padded(s1, k)
}

/// Order of two (sorted) slot lists: `Better` when every aligned slot of
/// `s0` is at least the one of `s1` and one is larger, `Worse` in the mirror
/// case, `Undefined` when they differ both ways or not at all. An empty list
/// is worse than any non-empty one.
pub open spec fn slots_order(s0: Seq<u8>, s1: Seq<u8>) -> OddComparison {
    let d0 = slot_diff(s0, s1, 0);
    let d1 = slot_diff(s0, s1, 1);
    let d2 = slot_diff(s0, s1, 2);
    if s0.len() == 0 {
        if s1.len() == 0 {
            OddComparison::Undefined
        } else {
            OddComparison::Worse
        }
    } else if s1.len() == 0 {
        OddComparison::Better
    } else if d0 >= 0 && d1 >= 0 && d2 >= 0 && (d0 > 0 || d1 > 0 || d2 > 0) {
        OddComparison::Better
    } else if d0 <= 0 && d1 <= 0 && d2 <= 0 && (d0 < 0 || d1 < 0 || d2 < 0) {
        OddComparison::Worse
    } else {
        OddComparison::Undefined
    }
}

fn padded_at(s: &[u8], k: usize) -> (r: i16)
    requires
        s@.len() <= 3,
        k < 3,
    ensures
        r == padded(s@, k as int),
{
    if k >= 3 - s.len() {
        s[k - (3 - s.len())] as i16
    } else {
        0
    }
}

/// Compares two slot lists, meant to be sorted in ascending order.
pub fn compare_slots(slots0: &[u8], slots1: &[u8]) -> (r: OddComparison)
    requires
        slots0@.len() <= 3,
        slots1@.len() <= 3,
    ensures
        r == slots_order(slots0@, slots1@),
{
    if slots0.len() == 0 {
        if slots1.len() == 0 {
            return OddComparison::Undefined;
        }
        return OddComparison::Worse;
    }
    if slots1.len() == 0 {
        return OddComparison::Better;
    }
    let d0 = padded_at(slots0, 0) - padded_at(slots1, 0);
    let d1 = padded_at(slots0, 1) - padded_at(slots1, 1);
    let d2 = padded_at(slots0, 2) - padded_at(slots1, 2);
    if d0 >= 0 && d1 >= 0 && d2 >= 0 && (d0 > 0 || d1 > 0 || d2 > 0) {
        OddComparison::Better
    } else if d0 <= 0 && d1 <= 0 && d2 <= 0 && (d0 < 0 || d1 < 0 || d2 < 0) {
        OddComparison::Worse
    } else {
        OddComparison::Undefined
    }
}

/// Swapping the two slot lists swaps `Better` and `Worse`.
pub proof fn lemma_slots_order_antisymmetric(s0: Seq<u8>, s1: Seq<u8>)
    ensures
        (slots_order(s0, s1) == OddComparison::Better) == (slots_order(s1, s0)
            == OddComparison::Worse),
        (slots_order(s0, s1) == OddComparison::Worse) == (slots_order(s1, s0)
            == OddComparison::Better),
{
}

/// Amount of the last entry of `skills` that grants `s`, if any.
pub open spec fn last_amount(skills: Seq<(Skill, u8)>, s: Skill) -> Option<u8>
    decreases skills.len(),
{
    if skills.len() == 0 {
        None
    } else if skills.last().0 == s {
        Some(skills.last().1)
    } else {
        last_amount(skills.drop_last(), s)
    }
}

/// `a - min(a, b)`.
pub open spec fn excess(a: u8, b: u8) -> u8 {
    if a > b {
        (a - b) as u8
    } else {
        0
    }
}

/// The skills of `mine` with what `other` also grants taken away: each entry
/// loses the amount of the last entry of `other` for the same skill.
pub open spec fn delta_of(mine: Seq<(Skill, u8)>, other: Seq<(Skill, u8)>) -> Seq<(Skill, u8)> {
    Seq::new(
        mine.len(),
        |i: int|
            (mine[i].0, match last_amount(other, mine[i].0) {
                Some(b) => excess(mine[i].1, b),
                None => mine[i].1,
            }),
    )
}

fn find_last_amount(skills: &[(Skill, u8)], s: Skill) -> (r: Option<u8>)
    ensures
        r == last_amount(skills@, s),
{
    let mut r: Option<u8> = None;
    let mut i: usize = 0;
    while i < skills.len()
        invariant
            i <= skills@.len(),
            r == last_amount(skills@.subrange(0, i as int), s),
        decreases skills@.len() - i,
    {
        proof {
            assert(skills@.subrange(0, i as int + 1).drop_last() =~= skills@.subrange(0, i as int));
        }
        if skills[i].0 == s {
            r = Some(skills[i].1);
        }
        i = i + 1;
    }
    proof {
        assert(skills@.subrange(0, i as int) =~= skills@);
    }
    r
}

fn delta_against(mine: &[(Skill, u8)], other: &[(Skill, u8)]) -> (r: Vec<(Skill, u8)>)
    ensures
        r@ == delta_of(mine@, other@),
{
    let mut r: Vec<(Skill, u8)> = Vec::new();
    let mut i: usize = 0;
    while i < mine.len()
        invariant
            i <= mine@.len(),
            r@ == delta_of(mine@, other@).subrange(0, i as int),
        decreases mine@.len() - i,
    {
        let (skill, amount) = mine[i];
        let left = match find_last_amount(other, skill) {
            Some(b) => if amount > b {
                amount - b
            } else {
                0
            },
            None => amount,
        };
        r.push((skill, left));
        i = i + 1;
        proof {
            assert(r@ =~= delta_of(mine@, other@).subrange(0, i as int));
        }
    }
    proof {
        assert(r@ =~= delta_of(mine@, other@));
    }
    r
}

pub type DeltasSkills = (Vec<(Skill, u8)>, Vec<(Skill, u8)>);

/// Removes from each list what both lists grant, so that only the edge of
/// each piece over the other is left. With `[(Botanist, 2), (CriticalBoost, 1)]`
/// and `[(Botanist, 1), (CriticalBoost, 1), (AttackBoost, 1)]` the deltas are
/// `[(Botanist, 1), (CriticalBoost, 0)]` and
/// `[(Botanist, 0), (CriticalBoost, 0), (AttackBoost, 1)]`.
pub fn generate_deltas_skills(skills0: &[(Skill, u8)], skills1: &[(Skill, u8)]) -> (r:
    DeltasSkills)
    ensures
        r.0@ == delta_of(skills0@, skills1@),
        r.1@ == delta_of(skills1@, skills0@),
{
    (delta_against(skills0, skills1), delta_against(skills1, skills0))
}

/// The slots that jewels for `amount` levels of the skill of `e` would fill.
pub open spec fn entry_slots(e: (Skill, u8)) -> Seq<u8> {
    match e.0.jewel_size_of() {
        Some(size) => Seq::new(e.1 as nat, |i: int| size),
        None => Seq::empty(),
    }
}

/// Virtual slots for the entries of `skills` that grant `s`, in order.
pub open spec fn skill_virtual_slots(s: Skill, skills: Seq<(Skill, u8)>) -> Seq<u8>
    decreases skills.len(),
{
    if skills.len() == 0 {
        Seq::empty()
    } else {
        skill_virtual_slots(s, skills.drop_last()) + if skills.last().0 == s {
            entry_slots(skills.last())
        } else {
            Seq::empty()
        }
    }
}

/// Virtual slots of `skills` for the wished skills: for each wish in order, a
/// slot of the jewel's size for each level of that skill in `skills`.
pub open spec fn virtual_slots(wishes: Seq<(Skill, u8)>, skills: Seq<(Skill, u8)>) -> Seq<u8>
    decreases wishes.len(),
{
    if wishes.len() == 0 {
        Seq::empty()
    } else {
        virtual_slots(wishes.drop_last(), skills) + skill_virtual_slots(wishes.last().0, skills)
    }
}

/// `skills` grants a wished skill for which no jewel exists.
pub open spec fn has_priority(wishes: Seq<(Skill, u8)>, skills: Seq<(Skill, u8)>) -> bool {
    exists|i: int, j: int|
        0 <= i < wishes.len() && 0 <= j < skills.len() && #[trigger] wishes[i].0
            == #[trigger] skills[j].0 && skills[j].0.jewel_size_of() is None && skills[j].1 > 0
}

/// Stands the skills of a piece in for the jewel slots that would recreate
/// them. Returns `true` first when one of the wished skills has no jewel.
pub fn generate_virtual_slots(wishes: &[(Skill, u8)], skills: &[(Skill, u8)]) -> (r: (
    bool,
    Vec<u8>,
))
    ensures
        r.0 == has_priority(wishes@, skills@),
        r.1@ == virtual_slots(wishes@, skills@),
{
    let mut priority = false;
    let mut virtual_list: Vec<u8> = Vec::new();
    let mut i: usize = 0;
    while i < wishes.len()
        invariant
            i <= wishes@.len(),
            virtual_list@ == virtual_slots(wishes@.subrange(0, i as int), skills@),
            priority == has_priority(wishes@.subrange(0, i as int), skills@),
        decreases wishes@.len() - i,
    {
        let wished_skill = wishes[i].0;
        let ghost before = virtual_list@;
        let mut j: usize = 0;
        while j < skills.len()
            invariant
                i < wishes@.len(),
                wished_skill == wishes@[i as int].0,
                j <= skills@.len(),
                virtual_list@ == before + skill_virtual_slots(
                    wished_skill,
                    skills@.subrange(0, j as int),
                ),
                priority == (has_priority(wishes@.subrange(0, i as int), skills@) || exists|
                    k: int,
                |
                    0 <= k < j && #[trigger] skills@[k].0 == wished_skill
                        && skills@[k].0.jewel_size_of() is None && skills@[k].1 > 0),
            decreases skills@.len() - j,
        {
            let (skill, amount) = skills[j];
            let ghost mid = virtual_list@;
            proof {
                assert(skills@.subrange(0, j as int + 1).drop_last() =~= skills@.subrange(
                    0,
                    j as int,
                ));
            }
            if skill == wished_skill {
                match skill.get_jewel_size() {
                    Some(size) => {
                        let mut n: u8 = 0;
                        while n < amount
                            invariant
                                n <= amount,
                                virtual_list@ == mid + Seq::new(n as nat, |x: int| size),
                            decreases amount - n,
                        {
                            virtual_list.push(size);
                            n = n + 1;
                            proof {
                                assert(virtual_list@ =~= mid + Seq::new(
                                    n as nat,
                                    |x: int| size,
                                ));
                            }
                        }
                    },
                    None => {
                        if amount > 0 {
                            priority = true;
                        }
                    },
                }
            }
            j = j + 1;
            proof {
                assert(virtual_list@ =~= before + skill_virtual_slots(
                    wished_skill,
                    skills@.subrange(0, j as int),
                ));
            }
        }
        proof {
            assert(skills@.subrange(0, j as int) =~= skills@);
            let w = wishes@.subrange(0, i as int + 1);
            assert(w.drop_last() =~= wishes@.subrange(0, i as int));
            assert(w.last() == wishes@[i as int]);
            if priority {
                if !has_priority(wishes@.subrange(0, i as int), skills@) {
                    let k = choose|k: int|
                        0 <= k < j && #[trigger] skills@[k].0 == wished_skill
                            && skills@[k].0.jewel_size_of() is None && skills@[k].1 > 0;
                    assert(w[i as int].0 == skills@[k].0);
                }
            } else {
                assert forall|a: int, b: int|
                    0 <= a < w.len() && 0 <= b < skills@.len() && #[trigger] w[a].0
                        == #[trigger] skills@[b].0 implies !(skills@[b].0.jewel_size_of() is None
                    && skills@[b].1 > 0) by {
                    if a < i {
                        assert(wishes@.subrange(0, i as int)[a] == w[a]);
                    }
                }
            }
        }
        i = i + 1;
    }
    proof {
        assert(wishes@.subrange(0, i as int) =~= wishes@);
    }
    (priority, virtual_list)
}

/// Ascending order of slot sizes.
pub open spec fn slot_leq() -> spec_fn(u8, u8) -> bool {
    |x: u8, y: u8| x <= y
}

/// The slots of `s` in ascending order.
pub open spec fn sorted_slots(s: Seq<u8>) -> Seq<u8> {
    s.sort_by(slot_leq())
}

/// Relies on `slice::sort_unstable`: afterwards the slots are the same ones,
/// in ascending order.
#[verifier::external_body]
fn sort_slots(v: &mut Vec<u8>)
    ensures
        final(v)@.len() == old(v)@.len(),
        final(v)@.to_multiset() == old(v)@.to_multiset(),
        sorted_by(final(v)@, slot_leq()),
{
    v.sort_unstable();
}

proof fn lemma_sorted_slots_unique(s: Seq<u8>, t: Seq<u8>)
    requires
        t.to_multiset() == s.to_multiset(),
        sorted_by(t, slot_leq()),
    ensures
        t == sorted_slots(s),
{
    assert(total_ordering(slot_leq()));
    s.lemma_sort_by_ensures(slot_leq());
    vstd::seq_lib::lemma_sorted_unique(t, sorted_slots(s), slot_leq());
}

/// `first` followed by `second`, sorted.
fn sorted_concat(first: &[u8], second: &[u8]) -> (r: Vec<u8>)
    ensures
        r@ == sorted_slots(first@ + second@),
        r@.len() == first@.len() + second@.len(),
{
    let mut r: Vec<u8> = Vec::new();
    let mut i: usize = 0;
    while i < first.len()
        invariant
            i <= first@.len(),
            r@ == first@.subrange(0, i as int),
        decreases first@.len() - i,
    {
        r.push(first[i]);
        i = i + 1;
        proof {
            assert(r@ =~= first@.subrange(0, i as int));
        }
    }
    let mut j: usize = 0;
    while j < second.len()
        invariant
            i == first@.len(),
            j <= second@.len(),
            r@ == first@ + second@.subrange(0, j as int),
        decreases second@.len() - j,
    {
        r.push(second[j]);
        j = j + 1;
        proof {
            assert(r@ =~= first@ + second@.subrange(0, j as int));
        }
    }
    proof {
        assert(first@.subrange(0, i as int) =~= first@);
        assert(second@.subrange(0, j as int) =~= second@);
    }
    let ghost unsorted = r@;
    sort_slots(&mut r);
    proof {
        lemma_sorted_slots_unique(unsorted, r@);
    }
    r
}

/// `a` is worse than `b`: with jewels in the slots of `b` one recreates the
/// skills that only `a` grants, and `b` still has slots that are as good as
/// those of `a` or better. No piece is worse than another while it grants a
/// wished skill for which no jewel exists.
pub open spec fn worse_than(wishes: Seq<(Skill, u8)>, a: ArmorView, b: ArmorView) -> bool {
    let d = delta_of(a.skills, b.skills);
    let v = virtual_slots(wishes, d);
    let sa = sorted_slots(a.slots + v);
    let sb = sorted_slots(b.slots);
    &&& a.slots.len() + v.len() <= b.slots.len()
    &&& !has_priority(wishes, d)
    &&& ((sa == sb && a.slots.len() < b.slots.len()) || slots_order(sa, sb)
        == OddComparison::Worse)
}

fn same_slots(s0: &[u8], s1: &[u8]) -> (r: bool)
    ensures
        r == (s0@ == s1@),
{
    if s0.len() != s1.len() {
        return false;
    }
    let mut i: usize = 0;
    while i < s0.len()
        invariant
            i <= s0@.len(),
            s0@.len() == s1@.len(),
            forall|k: int| 0 <= k < i ==> s0@[k] == s1@[k],
        decreases s0@.len() - i,
    {
        if s0[i] != s1[i] {
            return false;
        }
        i = i + 1;
    }
    proof {
        assert(s0@ =~= s1@);
    }
    true
}

/// `Worse` when `a` is worse than `b`, `Better` when `b` is worse than `a`,
/// `Undefined` otherwise.
pub open spec fn compare_spec(
    wishes: Seq<(Skill, u8)>,
    a: ArmorView,
    b: ArmorView,
) -> OddComparison {
    if worse_than(wishes, a, b) {
        OddComparison::Worse
    } else if worse_than(wishes, b, a) {
        OddComparison::Better
    } else {
        OddComparison::Undefined
    }
}

fn is_worse(wishes: &[(Skill, u8)], a: &Armor, b: &Armor, delta_a: &[(Skill, u8)]) -> (r: bool)
    requires
        b.wf(),
        delta_a@ == delta_of(a.skills@, b.skills@),
    ensures
        r == worse_than(wishes@, a@, b@),
{
    let (priority, virtual_a) = generate_virtual_slots(wishes, delta_a);
    if virtual_a.len() > b.slots.len() || a.slots.len() > b.slots.len() - virtual_a.len() {
        return false;
    }
    if priority {
        return false;
    }
    let slots_a = sorted_concat(a.slots.as_slice(), virtual_a.as_slice());
    let slots_b = sorted_concat(b.slots.as_slice(), &[]);
    proof {
        assert(b.slots@ + Seq::<u8>::empty() =~= b.slots@);
    }
    (same_slots(slots_a.as_slice(), slots_b.as_slice()) && a.slots.len() < b.slots.len())
        || compare_slots(slots_a.as_slice(), slots_b.as_slice()) == OddComparison::Worse
}

/// Compares two pieces for the wished skills.
pub fn compare_armors(wishes: &[(Skill, u8)], a: &Armor, b: &Armor) -> (r: OddComparison)
    requires
        a.wf(),
        b.wf(),
    ensures
        r == compare_spec(wishes@, a@, b@),
{
    let (delta_a, delta_b) = generate_deltas_skills(a.skills.as_slice(), b.skills.as_slice());
    if is_worse(wishes, a, b, delta_a.as_slice()) {
        OddComparison::Worse
    } else if is_worse(wishes, b, a, delta_b.as_slice()) {
        OddComparison::Better
    } else {
        OddComparison::Undefined
    }
}

/// `a` is better than `b` exactly when `b` is worse than `a`.
pub proof fn lemma_compare_antisymmetric(wishes: Seq<(Skill, u8)>, a: ArmorView, b: ArmorView)
    ensures
        (compare_spec(wishes, a, b) == OddComparison::Better) == (compare_spec(wishes, b, a)
            == OddComparison::Worse),
{
    if worse_than(wishes, a, b) && worse_than(wishes, b, a) {
        let va = virtual_slots(wishes, delta_of(a.skills, b.skills));
        let vb = virtual_slots(wishes, delta_of(b.skills, a.skills));
        assert(a.slots + va =~= a.slots);
        assert(b.slots + vb =~= b.slots);
        lemma_slots_order_antisymmetric(sorted_slots(a.slots), sorted_slots(b.slots));
    }
}

} // verus!
