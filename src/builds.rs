//! Builds (one optional piece per armor part, with the jewels set in its
//! slots) and the list of builds that a search keeps.
use vstd::prelude::*;
use crate::armor_and_skills::{Armor, ArmorView, Skill};
use crate::jewels::count_jewels;

verus! {

/// The jewels set in the (at most three) slots of a piece or of the weapon.
pub type Jewels = [Option<Skill>; 3];

/// One optional piece per armor part, each with its jewels, and the jewels
/// set in the weapon's slots.
#[derive(Debug)]
pub struct Build {
    pub helmet: Option<(Armor, Jewels)>,
    pub chest: Option<(Armor, Jewels)>,
    pub arm: Option<(Armor, Jewels)>,
    pub waist: Option<(Armor, Jewels)>,
    pub leg: Option<(Armor, Jewels)>,
    pub talisman: Option<(Armor, Jewels)>,
    pub weapon_jewels: Jewels,
}

/// A part of a build: the piece and its jewels, or nothing.
pub type PartView = Option<(ArmorView, Seq<Option<Skill>>)>;

/// Mathematical value of a [`Build`]: its six parts (helmet, chest, arm,
/// waist, leg, talisman) and the weapon's jewels.
pub struct BuildView {
    pub parts: Seq<PartView>,
    pub weapon_jewels: Seq<Option<Skill>>,
}

pub open spec fn part_view(p: Option<(Armor, Jewels)>) -> PartView {
    match p {
        Some((a, j)) => Some((a@, j@)),
        None => None,
    }
}

impl View for Build {
    type V = BuildView;

    open spec fn view(&self) -> BuildView {
        BuildView {
            parts: seq![
                part_view(self.helmet),
                part_view(self.chest),
                part_view(self.arm),
                part_view(self.waist),
                part_view(self.leg),
                part_view(self.talisman),
            ],
            weapon_jewels: self.weapon_jewels@,
        }
    }
}

pub open spec fn build_views(s: Seq<Build>) -> Seq<BuildView> {
    s.map_values(|b: Build| b@)
}

fn clone_part(p: &Option<(Armor, Jewels)>) -> (r: Option<(Armor, Jewels)>)
    ensures
        part_view(r) == part_view(*p),
{
    match p {
        Some((a, j)) => Some((a.clone(), *j)),
        None => None,
    }
}

impl Clone for Build {
    fn clone(&self) -> (r: Self)
        ensures
            r@ == self@,
    {
        Build {
            helmet: clone_part(&self.helmet),
            chest: clone_part(&self.chest),
            arm: clone_part(&self.arm),
            waist: clone_part(&self.waist),
            leg: clone_part(&self.leg),
            talisman: clone_part(&self.talisman),
            weapon_jewels: self.weapon_jewels,
        }
    }
}

/// Part `k` of a build (0: helmet, ..., 5: talisman).
fn part_of(b: &Build, k: usize) -> (r: &Option<(Armor, Jewels)>)
    requires
        k < 6,
    ensures
        part_view(*r) == b@.parts[k as int],
{
    match k {
        0 => &b.helmet,
        1 => &b.chest,
        2 => &b.arm,
        3 => &b.waist,
        4 => &b.leg,
        _ => &b.talisman,
    }
}

/// Levels of `s` that the entries grant.
pub open spec fn skill_amount(skills: Seq<(Skill, u8)>, s: Skill) -> int
    decreases skills.len(),
{
    if skills.len() == 0 {
        0
    } else {
        skill_amount(skills.drop_last(), s) + if skills.last().0 == s {
            skills.last().1 as int
        } else {
            0
        }
    }
}

/// Levels of `s` that a part grants: its piece and its jewels.
pub open spec fn part_total(p: PartView, s: Skill) -> int {
    match p {
        Some((a, j)) => skill_amount(a.skills, s) + count_jewels(j, s),
        None => 0,
    }
}

/// Levels of `s` that the first `n` parts grant.
pub open spec fn parts_total(parts: Seq<PartView>, s: Skill, n: int) -> int
    decreases n,
{
    if n <= 0 {
        0
    } else {
        parts_total(parts, s, n - 1) + part_total(parts[n - 1], s)
    }
}

/// Levels of `s` that a build grants: its pieces, their jewels and the
/// weapon's jewels.
pub open spec fn build_total(b: BuildView, s: Skill) -> int {
    parts_total(b.parts, s, 6) + count_jewels(b.weapon_jewels, s)
}

/// The build grants at least the wished level of every wished skill.
pub open spec fn meets_wishes(b: BuildView, wishes: Seq<(Skill, u8)>) -> bool {
    forall|i: int| 0 <= i < wishes.len() ==> build_total(b, #[trigger] wishes[i].0) >= wishes[i].1
}

/// At one part, `g` is at least as general as `s`: `g` has no piece there,
/// or both have the same piece (by name).
pub open spec fn part_as_general(g: PartView, s: PartView) -> bool {
    match (g, s) {
        (None, _) => true,
        (Some(a), Some(b)) => a.0.name == b.0.name,
        (Some(_), None) => false,
    }
}

/// `g` is more general than `s`: the two builds differ only in parts where
/// `g` has no piece and `s` has one, and they differ somewhere. Weapon jewels
/// are not compared.
#[verifier::opaque]
pub open spec fn more_general(g: BuildView, s: BuildView) -> bool {
    &&& forall|k: int| 0 <= k < 6 ==> part_as_general(#[trigger] g.parts[k], s.parts[k])
    &&& exists|k: int| 0 <= k < 6 && #[trigger] g.parts[k] is None && s.parts[k] is Some
}

/// The entries of `s` whose mark is not set, in order.
pub open spec fn drop_marked(s: Seq<BuildView>, marks: Seq<bool>) -> Seq<BuildView>
    decreases s.len(),
{
    if s.len() == 0 {
        s
    } else {
        (if marks[0] {
            Seq::empty()
        } else {
            seq![s[0]]
        }) + drop_marked(s.drop_first(), marks.drop_first())
    }
}

pub open spec fn dominates_some(olds: Seq<BuildView>, n: BuildView) -> bool {
    exists|i: int| 0 <= i < olds.len() && more_general(n, #[trigger] olds[i])
}

pub open spec fn dominated_by_some(olds: Seq<BuildView>, n: BuildView) -> bool {
    exists|i: int| 0 <= i < olds.len() && more_general(#[trigger] olds[i], n)
}

/// Index of the first entry of `olds` that `n` is more general than.
pub open spec fn first_dominated(olds: Seq<BuildView>, n: BuildView) -> int {
    choose|f: int|
        0 <= f < olds.len() && more_general(n, olds[f]) && forall|j: int|
            0 <= j < f ==> !more_general(n, #[trigger] olds[j])
}

/// The list of builds once `n` is offered to it: unchanged when an entry is
/// more general than `n`; else, when `n` is more general than some entries,
/// the first of them is replaced by `n` and the others are dropped; else `n`
/// is appended.
pub open spec fn accept(olds: Seq<BuildView>, n: BuildView) -> Seq<BuildView> {
    if dominated_by_some(olds, n) {
        olds
    } else if dominates_some(olds, n) {
        let f = first_dominated(olds, n);
        drop_marked(
            olds.update(f, n),
            Seq::new(olds.len(), |i: int| i != f && more_general(n, olds[i])),
        )
    } else {
        olds.push(n)
    }
}

fn more_general_than(g: &Build, s: &Build) -> (r: bool)
    ensures
        r == more_general(g@, s@),
{
    reveal(more_general);
    let mut some_empty = false;
    let mut k: usize = 0;
    while k < 6
        invariant
            k <= 6,
            forall|x: int| 0 <= x < k ==> part_as_general(#[trigger] g@.parts[x], s@.parts[x]),
            some_empty == exists|x: int|
                0 <= x < k && #[trigger] g@.parts[x] is None && s@.parts[x] is Some,
        decreases 6 - k,
    {
        proof {
            reveal(more_general);
        }
        let gp = part_of(g, k);
        let sp = part_of(s, k);
        match (gp, sp) {
            (None, Some(_)) => {
                some_empty = true;
            },
            (None, None) => {},
            (Some(a), Some(b)) => {
                if !(a.0 == b.0) {
                    return false;
                }
            },
            (Some(_), None) => {
                return false;
            },
        }
        k = k + 1;
    }
    some_empty
}

proof fn lemma_drop_marked_step(s: Seq<BuildView>, marks: Seq<bool>, k: int)
    requires
        0 <= k < s.len(),
        s.len() == marks.len(),
    ensures
        drop_marked(s.subrange(k, s.len() as int), marks.subrange(k, s.len() as int)) == (if marks[k] {
            Seq::empty()
        } else {
            seq![s[k]]
        }) + drop_marked(
            s.subrange(k + 1, s.len() as int),
            marks.subrange(k + 1, s.len() as int),
        ),
{
    assert(s.subrange(k, s.len() as int).drop_first() =~= s.subrange(k + 1, s.len() as int));
    assert(marks.subrange(k, s.len() as int).drop_first() =~= marks.subrange(
        k + 1,
        s.len() as int,
    ));
}

/// Offers a new build to the list of kept builds (see [`accept`]).
pub fn add_build(builds: &mut Vec<Build>, build: Build)
    ensures
        build_views(final(builds)@) == accept(build_views(old(builds)@), build@),
{
    let ghost olds = build_views(builds@);
    let n = builds.len();
    let mut i: usize = 0;
    while i < n
        invariant
            n == builds@.len(),
            olds == build_views(builds@),
            i <= n,
            forall|j: int| 0 <= j < i ==> !more_general(#[trigger] olds[j], build@),
        decreases n - i,
    {
        if more_general_than(&builds[i], &build) {
            assert(more_general(olds[i as int], build@));
            return;
        }
        i = i + 1;
    }
    let mut first: usize = n;
    let mut marks: Vec<bool> = Vec::new();
    let mut i: usize = 0;
    while i < n
        invariant
            n == builds@.len(),
            olds == build_views(builds@),
            i <= n,
            marks@.len() == i,
            first <= n,
            first < n ==> first < i && more_general(build@, olds[first as int]),
            forall|j: int| 0 <= j < i && j < first ==> !more_general(build@, #[trigger] olds[j]),
            forall|j: int|
                0 <= j < i ==> #[trigger] marks@[j] == (j != first && more_general(
                    build@,
                    olds[j],
                )),
        decreases n - i,
    {
        let d = more_general_than(&build, &builds[i]);
        if d && first == n {
            first = i;
            marks.push(false);
        } else {
            marks.push(d);
        }
        i = i + 1;
    }
    proof {
        assert(!dominated_by_some(olds, build@));
    }
    if first == n {
        proof {
            assert(!dominates_some(olds, build@));
            assert(build_views(builds@.push(build)) =~= olds.push(build@));
        }
        builds.push(build);
        return;
    }
    let ghost f = first_dominated(olds, build@);
    proof {
        assert(dominates_some(olds, build@));
        if f < first {
        } else if f > first {
            assert(!more_general(build@, olds[first as int]));
        }
        assert(f == first);
    }
    let ghost replaced = olds.update(f, build@);
    let ghost mk = Seq::new(olds.len(), |j: int| j != f && more_general(build@, olds[j]));
    builds.set(first, build);
    proof {
        assert(build_views(builds@) =~= replaced);
        assert(marks@ =~= mk);
        assert(replaced.subrange(n as int, n as int) =~= Seq::<BuildView>::empty());
        assert(replaced.subrange(0, n as int) =~= replaced);
    }
    let mut k: usize = n;
    while k > first + 1
        invariant
            first + 1 <= k <= n,
            n == replaced.len(),
            n == marks@.len(),
            marks@ == mk,
            build_views(builds@) == replaced.subrange(0, k as int) + drop_marked(
                replaced.subrange(k as int, n as int),
                mk.subrange(k as int, n as int),
            ),
        decreases k,
    {
        k = k - 1;
        proof {
            lemma_drop_marked_step(replaced, mk, k as int);
        }
        if marks[k] {
            let ghost before = build_views(builds@);
            assert(before.len() >= k as int + 1);
            builds.remove(k);
            proof {
                assert(build_views(builds@) =~= before.remove(k as int));
                assert(build_views(builds@) =~= replaced.subrange(0, k as int) + drop_marked(
                    replaced.subrange(k as int, n as int),
                    mk.subrange(k as int, n as int),
                ));
            }
        } else {
            proof {
                assert(build_views(builds@) =~= replaced.subrange(0, k as int) + drop_marked(
                    replaced.subrange(k as int, n as int),
                    mk.subrange(k as int, n as int),
                ));
            }
        }
    }
    proof {
        // no entry before `first` is marked, nor `first` itself
        assert forall|j: int| 0 <= j <= first implies !#[trigger] mk[j] by {}
        lemma_drop_marked_prefix(replaced, mk, k as int);
    }
}

/// Unmarked entries at the front are kept as they are.
proof fn lemma_drop_marked_prefix(s: Seq<BuildView>, marks: Seq<bool>, k: int)
    requires
        0 <= k <= s.len(),
        s.len() == marks.len(),
        forall|j: int| 0 <= j < k ==> !#[trigger] marks[j],
    ensures
        s.subrange(0, k) + drop_marked(
            s.subrange(k, s.len() as int),
            marks.subrange(k, s.len() as int),
        ) == drop_marked(s, marks),
    decreases k,
{
    if k > 0 {
        lemma_drop_marked_prefix(s, marks, k - 1);
        lemma_drop_marked_step(s, marks, k - 1);
        assert(s.subrange(0, k - 1) + (seq![s[k - 1]] + drop_marked(
            s.subrange(k, s.len() as int),
            marks.subrange(k, s.len() as int),
        )) =~= s.subrange(0, k) + drop_marked(
            s.subrange(k, s.len() as int),
            marks.subrange(k, s.len() as int),
        ));
    } else {
        assert(s.subrange(0, s.len() as int) =~= s);
        assert(marks.subrange(0, s.len() as int) =~= marks);
        assert(s.subrange(0, 0) + drop_marked(s, marks) =~= drop_marked(s, marks));
    }
}

/// No kept build is more general than another kept build.
pub open spec fn no_redundant(s: Seq<BuildView>) -> bool {
    forall|i: int, j: int|
        0 <= i < s.len() && 0 <= j < s.len() ==> !more_general(#[trigger] s[i], #[trigger] s[j])
}

proof fn lemma_more_general_irreflexive(x: BuildView)
    ensures
        !more_general(x, x),
{
    reveal(more_general);
}

proof fn lemma_drop_marked_from(s: Seq<BuildView>, marks: Seq<bool>)
    requires
        s.len() == marks.len(),
    ensures
        forall|p: int|
            0 <= p < drop_marked(s, marks).len() ==> exists|i: int|
                0 <= i < s.len() && !marks[i] && #[trigger] drop_marked(s, marks)[p] == s[i],
    decreases s.len(),
{
    if s.len() > 0 {
        let head = if marks[0] {
            Seq::<BuildView>::empty()
        } else {
            seq![s[0]]
        };
        let tail = drop_marked(s.drop_first(), marks.drop_first());
        lemma_drop_marked_from(s.drop_first(), marks.drop_first());
        let r = drop_marked(s, marks);
        assert(r == head + tail);
        assert forall|p: int| 0 <= p < r.len() implies exists|i: int|
            0 <= i < s.len() && !marks[i] && #[trigger] r[p] == s[i] by {
            if p < head.len() {
                assert(r[p] == s[0]);
            } else {
                assert(r[p] == tail[p - head.len()]);
                let i = choose|i: int|
                    0 <= i < s.drop_first().len() && !marks.drop_first()[i] && #[trigger] tail[p
                        - head.len()] == s.drop_first()[i];
                assert(r[p] == s[i + 1]);
            }
        }
    }
}

proof fn lemma_first_dominated_below(olds: Seq<BuildView>, n: BuildView, k: int)
    requires
        0 <= k <= olds.len(),
        exists|i: int| 0 <= i < k && more_general(n, #[trigger] olds[i]),
    ensures
        0 <= first_dominated(olds, n) < olds.len(),
        more_general(n, olds[first_dominated(olds, n)]),
        forall|j: int| 0 <= j < first_dominated(olds, n) ==> !more_general(n, #[trigger] olds[j]),
    decreases k,
{
    if exists|i: int| 0 <= i < k - 1 && more_general(n, #[trigger] olds[i]) {
        lemma_first_dominated_below(olds, n, k - 1);
    } else {
        let f = k - 1;
        assert(0 <= f < olds.len() && more_general(n, olds[f]) && forall|j: int|
            0 <= j < f ==> !more_general(n, #[trigger] olds[j]));
    }
}

proof fn lemma_replace_no_redundant(olds: Seq<BuildView>, n: BuildView)
    requires
        no_redundant(olds),
        !dominated_by_some(olds, n),
        dominates_some(olds, n),
    ensures
        no_redundant(accept(olds, n)),
{
    lemma_more_general_irreflexive(n);
    lemma_first_dominated_below(olds, n, olds.len() as int);
    let f = first_dominated(olds, n);
    let replaced = olds.update(f, n);
    let mk = Seq::new(olds.len(), |i: int| i != f && more_general(n, olds[i]));
    let r = drop_marked(replaced, mk);
    assert(r == accept(olds, n));
    lemma_drop_marked_from(replaced, mk);
    assert forall|p: int, q: int|
        0 <= p < r.len() && 0 <= q < r.len() implies !more_general(
        #[trigger] r[p],
        #[trigger] r[q],
    ) by {
        let i = choose|i: int| 0 <= i < replaced.len() && !mk[i] && #[trigger] r[p] == replaced[i];
        let j = choose|j: int| 0 <= j < replaced.len() && !mk[j] && #[trigger] r[q] == replaced[j];
        if i != f && j != f {
            assert(r[p] == olds[i] && r[q] == olds[j]);
        } else if i == f && j != f {
            assert(!more_general(n, olds[j]));
        } else if i != f && j == f {
            assert(!more_general(olds[i], n));
        }
    }
}

proof fn lemma_append_no_redundant(olds: Seq<BuildView>, n: BuildView)
    requires
        no_redundant(olds),
        !dominated_by_some(olds, n),
        !dominates_some(olds, n),
    ensures
        no_redundant(olds.push(n)),
{
    lemma_more_general_irreflexive(n);
    let r = olds.push(n);
    assert forall|p: int, q: int|
        0 <= p < r.len() && 0 <= q < r.len() implies !more_general(
        #[trigger] r[p],
        #[trigger] r[q],
    ) by {
        if p < olds.len() && q < olds.len() {
            assert(r[p] == olds[p] && r[q] == olds[q]);
        } else if p < olds.len() {
            assert(r[p] == olds[p]);
        } else if q < olds.len() {
            assert(r[q] == olds[q]);
        }
    }
}

/// After a build is offered, the list holds that build and builds it held
/// before, nothing else.
pub proof fn lemma_accept_elements(olds: Seq<BuildView>, n: BuildView)
    ensures
        forall|p: int|
            0 <= p < accept(olds, n).len() ==> #[trigger] accept(olds, n)[p] == n || olds.contains(
                accept(olds, n)[p],
            ),
{
    let r = accept(olds, n);
    if dominated_by_some(olds, n) {
        assert forall|p: int|
            0 <= p < r.len() implies #[trigger] r[p] == n || olds.contains(r[p]) by {
            assert(olds[p] == r[p]);
        }
    } else if dominates_some(olds, n) {
        lemma_first_dominated_below(olds, n, olds.len() as int);
        let f = first_dominated(olds, n);
        let replaced = olds.update(f, n);
        let mk = Seq::new(olds.len(), |i: int| i != f && more_general(n, olds[i]));
        lemma_drop_marked_from(replaced, mk);
        assert forall|p: int|
            0 <= p < r.len() implies #[trigger] r[p] == n || olds.contains(r[p]) by {
            let i = choose|i: int|
                0 <= i < replaced.len() && !mk[i] && #[trigger] r[p] == replaced[i];
            if i != f {
                assert(olds[i] == r[p]);
            }
        }
    } else {
        assert forall|p: int|
            0 <= p < r.len() implies #[trigger] r[p] == n || olds.contains(r[p]) by {
            if p < olds.len() {
                assert(olds[p] == r[p]);
            }
        }
    }
}

/// Offering a build to a list where no build is more general than another
/// keeps that so.
pub proof fn lemma_accept_no_redundant(olds: Seq<BuildView>, n: BuildView)
    requires
        no_redundant(olds),
    ensures
        no_redundant(accept(olds, n)),
{
    if dominated_by_some(olds, n) {
    } else if dominates_some(olds, n) {
        lemma_replace_no_redundant(olds, n);
    } else {
        lemma_append_no_redundant(olds, n);
    }
}

/// `x`, or 255 when it is larger.
pub open spec fn capped(x: int) -> int {
    if x > 255 {
        255
    } else {
        x
    }
}

fn add_capped(acc: u8, x: u8) -> (r: u8)
    ensures
        r == capped(acc + x),
{
    if x > 255 - acc {
        255
    } else {
        acc + x
    }
}

fn is_jewel_of(o: Option<Skill>, s: Skill) -> (r: bool)
    ensures
        r == (o == Some(s)),
{
    match o {
        Some(x) => x == s,
        None => false,
    }
}

fn jewels_capped(j: &Jewels, s: Skill, acc: u8) -> (r: u8)
    ensures
        r == capped(acc + count_jewels(j@, s)),
{
    let mut acc = acc;
    if is_jewel_of(j[0], s) {
        acc = add_capped(acc, 1);
    }
    if is_jewel_of(j[1], s) {
        acc = add_capped(acc, 1);
    }
    if is_jewel_of(j[2], s) {
        acc = add_capped(acc, 1);
    }
    acc
}

/// Levels of `s` that the build grants, capped at 255.
fn total_capped(b: &Build, s: Skill) -> (r: u8)
    ensures
        r == capped(build_total(b@, s)),
{
    let mut acc: u8 = 0;
    let mut k: usize = 0;
    while k < 6
        invariant
            k <= 6,
            acc == capped(parts_total(b@.parts, s, k as int)),
        decreases 6 - k,
    {
        match part_of(b, k) {
            Some((armor, jewels)) => {
                let mut e: usize = 0;
                while e < armor.skills.len()
                    invariant
                        e <= armor.skills@.len(),
                        acc == capped(
                            parts_total(b@.parts, s, k as int) + skill_amount(
                                armor.skills@.subrange(0, e as int),
                                s,
                            ),
                        ),
                    decreases armor.skills@.len() - e,
                {
                    proof {
                        assert(armor.skills@.subrange(0, e as int + 1).drop_last()
                            =~= armor.skills@.subrange(0, e as int));
                    }
                    if armor.skills[e].0 == s {
                        acc = add_capped(acc, armor.skills[e].1);
                    }
                    e = e + 1;
                }
                proof {
                    assert(armor.skills@.subrange(0, e as int) =~= armor.skills@);
                }
                acc = jewels_capped(jewels, s, acc);
            },
            None => {},
        }
        k = k + 1;
    }
    jewels_capped(&b.weapon_jewels, s, acc)
}

/// The part has a piece with an entry for `s`, or a jewel of `s`.
pub open spec fn part_has(p: PartView, s: Skill) -> bool {
    match p {
        Some((a, j)) => (exists|e: int| 0 <= e < a.skills.len() && #[trigger] a.skills[e].0 == s)
            || (exists|x: int| 0 <= x < 3 && #[trigger] j[x] == Some(s)),
        None => false,
    }
}

/// Some piece of the build has an entry for `s`, or some jewel is of `s`.
pub open spec fn appears(b: BuildView, s: Skill) -> bool {
    (exists|k: int| 0 <= k < 6 && part_has(#[trigger] b.parts[k], s)) || (exists|x: int|
        0 <= x < 3 && #[trigger] b.weapon_jewels[x] == Some(s))
}

fn note_skill(keys: &mut Vec<Skill>, s: Skill)
    requires
        distinct(old(keys)@),
    ensures
        distinct(final(keys)@),
        forall|t: Skill| final(keys)@.contains(t) <==> (old(keys)@.contains(t) || t == s),
{
    let mut i: usize = 0;
    while i < keys.len()
        invariant
            i <= keys@.len(),
            keys@ == old(keys)@,
            distinct(keys@),
            forall|k: int| 0 <= k < i ==> keys@[k] != s,
        decreases keys@.len() - i,
    {
        if keys[i] == s {
            assert(keys@.contains(s));
            return;
        }
        i = i + 1;
    }
    keys.push(s);
    proof {
        assert forall|t: Skill| keys@.contains(t) <==> (old(keys)@.contains(t) || t == s) by {
            if old(keys)@.contains(t) {
                let k = choose|k: int| 0 <= k < old(keys)@.len() && old(keys)@[k] == t;
                assert(keys@[k] == t);
            }
            if t == s {
                assert(keys@[keys@.len() - 1] == s);
            }
            if keys@.contains(t) && t != s {
                let k = choose|k: int| 0 <= k < keys@.len() && keys@[k] == t;
                assert(old(keys)@[k] == t);
            }
        }
    }
}

fn note_jewels(keys: &mut Vec<Skill>, j: &Jewels)
    requires
        distinct(old(keys)@),
    ensures
        distinct(final(keys)@),
        forall|t: Skill|
            final(keys)@.contains(t) <==> (old(keys)@.contains(t) || exists|x: int|
                0 <= x < 3 && #[trigger] j@[x] == Some(t)),
{
    let mut x: usize = 0;
    while x < 3
        invariant
            x <= 3,
            distinct(keys@),
            forall|t: Skill|
                keys@.contains(t) <==> (old(keys)@.contains(t) || exists|y: int|
                    0 <= y < x && #[trigger] j@[y] == Some(t)),
        decreases 3 - x,
    {
        match j[x] {
            Some(s) => note_skill(keys, s),
            None => {},
        }
        proof {
            assert forall|t: Skill| keys@.contains(t) <==> (old(keys)@.contains(t) || exists|y: int|
                0 <= y < x + 1 && #[trigger] j@[y] == Some(t)) by {
                if j@[x as int] == Some(t) {
                    assert(keys@.contains(t));
                }
            }
        }
        x = x + 1;
    }
}

/// No skill occurs twice.
pub open spec fn distinct(keys: Seq<Skill>) -> bool {
    forall|i: int, j: int| 0 <= i < j < keys.len() ==> keys[i] != keys[j]
}

fn note_entries(keys: &mut Vec<Skill>, skills: &Vec<(Skill, u8)>)
    requires
        distinct(old(keys)@),
    ensures
        distinct(final(keys)@),
        forall|t: Skill|
            final(keys)@.contains(t) <==> (old(keys)@.contains(t) || exists|f: int|
                0 <= f < skills@.len() && #[trigger] skills@[f].0 == t),
{
    let ghost start = keys@;
    let mut e: usize = 0;
    while e < skills.len()
        invariant
            e <= skills@.len(),
            distinct(keys@),
            forall|t: Skill|
                keys@.contains(t) <==> (start.contains(t) || exists|f: int|
                    0 <= f < e && #[trigger] skills@[f].0 == t),
        decreases skills@.len() - e,
    {
        let ghost prev = keys@;
        assert(forall|t: Skill|
            prev.contains(t) <==> (start.contains(t) || exists|f: int|
                0 <= f < e && #[trigger] skills@[f].0 == t));
        let skill = skills[e].0;
        note_skill(keys, skill);
        proof {
            assert forall|t: Skill|
                keys@.contains(t) <==> (start.contains(t) || exists|f: int|
                    0 <= f < e + 1 && #[trigger] skills@[f].0 == t) by {
                if t == skill {
                    assert(skills@[e as int].0 == t);
                } else if exists|f: int| 0 <= f < e + 1 && #[trigger] skills@[f].0 == t {
                    let f = choose|f: int| 0 <= f < e + 1 && #[trigger] skills@[f].0 == t;
                    assert(f < e);
                    assert(prev.contains(t));
                }
            }
        }
        e = e + 1;
    }
}

impl Build {
    /// Each skill that a piece of the build has an entry for, or that a jewel
    /// grants, once, with the levels that the build grants (pieces, their
    /// jewels and the weapon's jewels), capped at 255.
    pub fn get_all_skills_and_amounts(&self) -> (r: Vec<(Skill, u8)>)
        ensures
            forall|i: int, j: int| 0 <= i < j < r@.len() ==> r@[i].0 != r@[j].0,
            forall|i: int|
                0 <= i < r@.len() ==> #[trigger] r@[i].1 == capped(build_total(self@, r@[i].0)),
            forall|s: Skill|
                appears(self@, s) <==> exists|i: int| 0 <= i < r@.len() && #[trigger] r@[i].0 == s,
    {
        let mut keys: Vec<Skill> = Vec::new();
        let mut k: usize = 0;
        while k < 6
            invariant
                k <= 6,
                distinct(keys@),
                forall|t: Skill|
                    keys@.contains(t) <==> exists|q: int|
                        0 <= q < k && part_has(#[trigger] self@.parts[q], t),
            decreases 6 - k,
        {
            let ghost before = keys@;
            match part_of(self, k) {
                Some((armor, jewels)) => {
                    note_entries(&mut keys, &armor.skills);
                    let ghost mid = keys@;
                    note_jewels(&mut keys, jewels);
                    proof {
                        assert(self@.parts[k as int] == Some((armor@, jewels@)));
                        assert forall|t: Skill|
                            keys@.contains(t) <==> exists|q: int|
                                0 <= q < k + 1 && part_has(#[trigger] self@.parts[q], t) by {
                            if part_has(self@.parts[k as int], t) {
                                if exists|f: int|
                                    0 <= f < armor.skills@.len() && #[trigger] armor.skills@[f].0
                                        == t {
                                    assert(mid.contains(t));
                                }
                            }
                            if keys@.contains(t) && !before.contains(t) {
                                if mid.contains(t) {
                                    let f = choose|f: int|
                                        0 <= f < armor.skills@.len() && #[trigger] armor.skills@[f].0
                                            == t;
                                    assert(armor@.skills[f].0 == t);
                                } else {
                                    let x = choose|x: int|
                                        0 <= x < 3 && #[trigger] jewels@[x] == Some(t);
                                    assert(jewels@[x] == Some(t));
                                }
                                assert(part_has(self@.parts[k as int], t));
                            }
                        }
                    }
                },
                None => {
                    proof {
                        assert forall|t: Skill|
                            keys@.contains(t) <==> exists|q: int|
                                0 <= q < k + 1 && part_has(#[trigger] self@.parts[q], t) by {
                            assert(!part_has(self@.parts[k as int], t));
                        }
                    }
                },
            }
            k = k + 1;
        }
        note_jewels(&mut keys, &self.weapon_jewels);
        let mut r: Vec<(Skill, u8)> = Vec::new();
        let mut i: usize = 0;
        while i < keys.len()
            invariant
                i <= keys@.len(),
                r@.len() == i,
                forall|a: int| 0 <= a < i ==> #[trigger] r@[a].0 == keys@[a],
                forall|a: int|
                    0 <= a < i ==> #[trigger] r@[a].1 == capped(build_total(self@, r@[a].0)),
            decreases keys@.len() - i,
        {
            let s = keys[i];
            r.push((s, total_capped(self, s)));
            i = i + 1;
        }
        proof {
            assert forall|s: Skill|
                appears(self@, s) <==> exists|i: int|
                    0 <= i < r@.len() && #[trigger] r@[i].0 == s by {
                if appears(self@, s) {
                    assert(keys@.contains(s));
                    let a = choose|a: int| 0 <= a < keys@.len() && keys@[a] == s;
                    assert(r@[a].0 == s);
                }
                if exists|i: int| 0 <= i < r@.len() && #[trigger] r@[i].0 == s {
                    let a = choose|a: int| 0 <= a < r@.len() && #[trigger] r@[a].0 == s;
                    assert(keys@[a] == s);
                    assert(keys@.contains(s));
                }
            }
        }
        r
    }
}

} // verus!
