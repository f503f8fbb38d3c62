//! Greedy placement of jewels in the free slots of the parts of a build.
use vstd::prelude::*;
use crate::armor_and_skills::Skill;
use crate::builds::Jewels;

verus! {

/// Number of parts that hold slots: six armor parts, then the weapon.
pub const NB_PARTS: usize = 7;

/// Slots of one part while jewels are being placed: the sizes of its free
/// slots (0 once a slot is taken or when there is none), the jewels placed so
/// far, and how many there are.
#[derive(Clone, Copy)]
pub struct PartSlots {
    pub free: [u8; 3],
    pub jewels: Jewels,
    pub used: usize,
}

/// Mathematical value of a [`PartSlots`].
pub struct FillView {
    pub free: Seq<u8>,
    pub jewels: Seq<Option<Skill>>,
    pub used: int,
}

impl View for PartSlots {
    type V = FillView;

    open spec fn view(&self) -> FillView {
        FillView { free: self.free@, jewels: self.jewels@, used: self.used as int }
    }
}

pub open spec fn free_count(free: Seq<u8>) -> int {
    let one_if = |b: bool| if b { 1int } else { 0int };
    one_if(free[0] > 0) + one_if(free[1] > 0) + one_if(free[2] > 0)
}

impl FillView {
    /// Three slots; the jewels fill the first `used` places, and a jewel
    /// needs a free slot, so `used` plus the free slots never exceeds three.
    pub open spec fn wf(self) -> bool {
        &&& self.free.len() == 3
        &&& self.jewels.len() == 3
        &&& 0 <= self.used
        &&& self.used + free_count(self.free) <= 3
        &&& forall|k: int| self.used <= k < 3 ==> #[trigger] self.jewels[k] is None
    }
}

pub open spec fn fill_views(s: Seq<PartSlots>) -> Seq<FillView> {
    s.map_values(|p: PartSlots| p@)
}

pub open spec fn all_wf(s: Seq<FillView>) -> bool {
    forall|p: int| 0 <= p < s.len() ==> (#[trigger] s[p]).wf()
}

/// Slot `k` of part `p` takes one jewel of `skill` (of the given size) when
/// some is still needed and the slot is large enough.
pub open spec fn place_in_slot(p: FillView, k: int, skill: Skill, size: u8, left: u8) -> (
    FillView,
    u8,
) {
    if left > 0 && p.free[k] >= size {
        (
            FillView {
                free: p.free.update(k, 0),
                jewels: p.jewels.update(p.used, Some(skill)),
                used: p.used + 1,
            },
            (left - 1) as u8,
        )
    } else {
        (p, left)
    }
}

/// The slots of part `p`, in order, take jewels of `skill`.
pub open spec fn place_in_part(p: FillView, skill: Skill, size: u8, left: u8) -> (FillView, u8) {
    let r0 = place_in_slot(p, 0, skill, size, left);
    let r1 = place_in_slot(r0.0, 1, skill, size, r0.1);
    place_in_slot(r1.0, 2, skill, size, r1.1)
}

/// The first `n` parts, in order, take jewels of `skill`.
pub open spec fn place_in_parts(parts: Seq<FillView>, skill: Skill, size: u8, left: u8, n: int) -> (
    Seq<FillView>,
    u8,
)
    decreases n,
{
    if n <= 0 {
        (parts, left)
    } else {
        let prev = place_in_parts(parts, skill, size, left, n - 1);
        let r = place_in_part(prev.0[n - 1], skill, size, prev.1);
        (prev.0.update(n - 1, r.0), r.1)
    }
}

/// State of a placement: the parts, and the levels still needed per wish.
pub type FillState = (Seq<FillView>, Seq<u8>);

/// Wish `i`, when its jewel has the given size, takes jewels in all parts.
pub open spec fn place_wish(
    st: FillState,
    wishes: Seq<(Skill, u8)>,
    i: int,
    size: u8,
) -> FillState {
    if wishes[i].0.jewel_size_of() == Some(size) {
        let r = place_in_parts(st.0, wishes[i].0, size, st.1[i], NB_PARTS as int);
        (r.0, st.1.update(i, r.1))
    } else {
        st
    }
}

/// The first `n` wishes whose jewel has the given size, in order.
pub open spec fn place_round(st: FillState, wishes: Seq<(Skill, u8)>, size: u8, n: int) -> FillState
    decreases n,
{
    if n <= 0 {
        st
    } else {
        place_wish(place_round(st, wishes, size, n - 1), wishes, n - 1, size)
    }
}

/// All wishes take jewels, those with the largest jewels first, so that
/// small jewels do not take the slots that large ones need. Wishes without
/// a jewel take nothing.
pub open spec fn place_all(st: FillState, wishes: Seq<(Skill, u8)>) -> FillState {
    let n = wishes.len() as int;
    place_round(place_round(place_round(st, wishes, 3, n), wishes, 2, n), wishes, 1, n)
}

fn place_in_slot_exec(p: &mut PartSlots, k: usize, skill: Skill, size: u8, left: &mut u8)
    requires
        old(p)@.wf(),
        k < 3,
        size >= 1,
    ensures
        (final(p)@, *final(left)) == place_in_slot(old(p)@, k as int, skill, size, *old(left)),
        final(p)@.wf(),
{
    if *left > 0 && p.free[k] >= size {
        p.free[k] = 0;
        p.jewels[p.used] = Some(skill);
        p.used = p.used + 1;
        *left = *left - 1;
        proof {
            assert(p@.free =~= old(p)@.free.update(k as int, 0));
            assert(p@.jewels =~= old(p)@.jewels.update(old(p)@.used, Some(skill)));
        }
    }
}

fn place_in_part_exec(p: &mut PartSlots, skill: Skill, size: u8, left: &mut u8)
    requires
        old(p)@.wf(),
        size >= 1,
    ensures
        (final(p)@, *final(left)) == place_in_part(old(p)@, skill, size, *old(left)),
        final(p)@.wf(),
{
    place_in_slot_exec(p, 0, skill, size, left);
    place_in_slot_exec(p, 1, skill, size, left);
    place_in_slot_exec(p, 2, skill, size, left);
}

/// Places jewels of `skill` in all parts, in order; returns the levels that
/// are still needed.
fn place_in_parts_exec(parts: &mut Vec<PartSlots>, skill: Skill, size: u8, left: u8) -> (r: u8)
    requires
        old(parts)@.len() == NB_PARTS,
        all_wf(fill_views(old(parts)@)),
        size >= 1,
    ensures
        final(parts)@.len() == NB_PARTS,
        all_wf(fill_views(final(parts)@)),
        (fill_views(final(parts)@), r) == place_in_parts(
            fill_views(old(parts)@),
            skill,
            size,
            left,
            NB_PARTS as int,
        ),
{
    let ghost start = fill_views(parts@);
    let ghost left0 = left;
    let mut left = left;
    let mut k: usize = 0;
    while k < NB_PARTS
        invariant
            k <= NB_PARTS,
            size >= 1,
            parts@.len() == NB_PARTS,
            all_wf(fill_views(parts@)),
            (fill_views(parts@), left) == place_in_parts(start, skill, size, left0, k as int),
        decreases NB_PARTS - k,
    {
        let ghost prev = fill_views(parts@);
        let mut p = parts[k];
        assert(prev[k as int] == p@);
        place_in_part_exec(&mut p, skill, size, &mut left);
        parts.set(k, p);
        proof {
            assert(fill_views(parts@) =~= prev.update(k as int, p@));
        }
        k = k + 1;
    }
    left
}

fn place_round_exec(
    parts: &mut Vec<PartSlots>,
    wishes: &[(Skill, u8)],
    lefts: &mut Vec<u8>,
    size: u8,
)
    requires
        old(parts)@.len() == NB_PARTS,
        all_wf(fill_views(old(parts)@)),
        old(lefts)@.len() == wishes@.len(),
        size >= 1,
    ensures
        final(parts)@.len() == NB_PARTS,
        all_wf(fill_views(final(parts)@)),
        final(lefts)@.len() == wishes@.len(),
        (fill_views(final(parts)@), final(lefts)@) == place_round(
            (fill_views(old(parts)@), old(lefts)@),
            wishes@,
            size,
            wishes@.len() as int,
        ),
{
    let ghost start: FillState = (fill_views(parts@), lefts@);
    let mut i: usize = 0;
    while i < wishes.len()
        invariant
            i <= wishes@.len(),
            size >= 1,
            parts@.len() == NB_PARTS,
            all_wf(fill_views(parts@)),
            lefts@.len() == wishes@.len(),
            (fill_views(parts@), lefts@) == place_round(start, wishes@, size, i as int),
        decreases wishes@.len() - i,
    {
        let skill = wishes[i].0;
        match skill.get_jewel_size() {
            Some(s) => {
                if s == size {
                    let left = place_in_parts_exec(parts, skill, size, lefts[i]);
                    lefts.set(i, left);
                }
            },
            None => {},
        }
        i = i + 1;
    }
}

/// Places jewels for the wishes (with the levels still needed in `lefts`) in
/// the parts: wishes with size-3 jewels first, then size 2, then size 1, each
/// group in wish order.
pub fn place_jewels(parts: &mut Vec<PartSlots>, wishes: &[(Skill, u8)], lefts: &mut Vec<u8>)
    requires
        old(parts)@.len() == NB_PARTS,
        all_wf(fill_views(old(parts)@)),
        old(lefts)@.len() == wishes@.len(),
    ensures
        final(parts)@.len() == NB_PARTS,
        all_wf(fill_views(final(parts)@)),
        final(lefts)@.len() == wishes@.len(),
        (fill_views(final(parts)@), final(lefts)@) == place_all(
            (fill_views(old(parts)@), old(lefts)@),
            wishes@,
        ),
{
    place_round_exec(parts, wishes, lefts, 3);
    place_round_exec(parts, wishes, lefts, 2);
    place_round_exec(parts, wishes, lefts, 1);
}

/// Number of jewels of `s` among three places.
pub open spec fn count_jewels(j: Seq<Option<Skill>>, s: Skill) -> int {
    (if j[0] == Some(s) {
        1int
    } else {
        0int
    }) + (if j[1] == Some(s) {
        1int
    } else {
        0int
    }) + (if j[2] == Some(s) {
        1int
    } else {
        0int
    })
}

/// Number of jewels of `s` in the first `n` parts.
pub open spec fn jewels_total(ps: Seq<FillView>, s: Skill, n: int) -> int
    decreases n,
{
    if n <= 0 {
        0
    } else {
        jewels_total(ps, s, n - 1) + count_jewels(ps[n - 1].jewels, s)
    }
}

/// A part without free slots nor jewels: no piece was chosen for it.
pub open spec fn untouched(p: FillView) -> bool {
    p.used == 0 && p.free[0] == 0 && p.free[1] == 0 && p.free[2] == 0
}

/// Levels of `s` that jewels have granted to the first `n` wishes.
pub open spec fn placed(
    wishes: Seq<(Skill, u8)>,
    start: Seq<u8>,
    lefts: Seq<u8>,
    s: Skill,
    n: int,
) -> int
    decreases n,
{
    if n <= 0 {
        0
    } else {
        placed(wishes, start, lefts, s, n - 1) + if wishes[n - 1].0 == s {
            start[n - 1] - lefts[n - 1]
        } else {
            0
        }
    }
}

proof fn lemma_slot_counts(p: FillView, k: int, s0: Skill, size: u8, left: u8)
    requires
        p.wf(),
        0 <= k < 3,
        size >= 1,
    ensures
        place_in_slot(p, k, s0, size, left).1 <= left,
        place_in_slot(p, k, s0, size, left).0.wf(),
        forall|s: Skill|
            #[trigger] count_jewels(place_in_slot(p, k, s0, size, left).0.jewels, s) == count_jewels(
                p.jewels,
                s,
            ) + if s == s0 {
                left - place_in_slot(p, k, s0, size, left).1
            } else {
                0
            },
        untouched(p) ==> place_in_slot(p, k, s0, size, left).0 == p,
{
    let r = place_in_slot(p, k, s0, size, left);
    if left > 0 && p.free[k] >= size {
        assert(p.used < 3);
        assert(r.0.free =~= p.free.update(k, 0));
        assert forall|j: int| r.0.used <= j < 3 implies #[trigger] r.0.jewels[j] is None by {
            assert(r.0.jewels[j] == p.jewels[j]);
        }
    }
}

proof fn lemma_part_counts(p: FillView, s0: Skill, size: u8, left: u8)
    requires
        p.wf(),
        size >= 1,
    ensures
        place_in_part(p, s0, size, left).1 <= left,
        place_in_part(p, s0, size, left).0.wf(),
        forall|s: Skill|
            #[trigger] count_jewels(place_in_part(p, s0, size, left).0.jewels, s) == count_jewels(
                p.jewels,
                s,
            ) + if s == s0 {
                left - place_in_part(p, s0, size, left).1
            } else {
                0
            },
        untouched(p) ==> place_in_part(p, s0, size, left).0 == p,
{
    let r0 = place_in_slot(p, 0, s0, size, left);
    lemma_slot_counts(p, 0, s0, size, left);
    let r1 = place_in_slot(r0.0, 1, s0, size, r0.1);
    lemma_slot_counts(r0.0, 1, s0, size, r0.1);
    lemma_slot_counts(r1.0, 2, s0, size, r1.1);
    let r2 = place_in_slot(r1.0, 2, s0, size, r1.1);
    assert forall|s: Skill| #[trigger] count_jewels(r2.0.jewels, s) == count_jewels(p.jewels, s) + if s == s0 {
        left - r2.1
    } else {
        0
    } by {
        assert(count_jewels(r0.0.jewels, s) == count_jewels(p.jewels, s) + if s == s0 {
            left - r0.1
        } else {
            0
        });
        assert(count_jewels(r1.0.jewels, s) == count_jewels(r0.0.jewels, s) + if s == s0 {
            r0.1 - r1.1
        } else {
            0
        });
    }
}

proof fn lemma_jewels_total_update(ps: Seq<FillView>, i: int, q: FillView, s: Skill, n: int)
    requires
        0 <= i < ps.len(),
        0 <= n <= ps.len(),
    ensures
        jewels_total(ps.update(i, q), s, n) == jewels_total(ps, s, n) + if i < n {
            count_jewels(q.jewels, s) - count_jewels(ps[i].jewels, s)
        } else {
            0
        },
    decreases n,
{
    if n > 0 {
        lemma_jewels_total_update(ps, i, q, s, n - 1);
    }
}

proof fn lemma_parts_counts(ps: Seq<FillView>, s0: Skill, size: u8, left: u8, n: int)
    requires
        all_wf(ps),
        size >= 1,
        0 <= n <= ps.len(),
    ensures
        place_in_parts(ps, s0, size, left, n).0.len() == ps.len(),
        all_wf(place_in_parts(ps, s0, size, left, n).0),
        place_in_parts(ps, s0, size, left, n).1 <= left,
        forall|s: Skill|
            #[trigger] jewels_total(place_in_parts(ps, s0, size, left, n).0, s, ps.len() as int)
                == jewels_total(ps, s, ps.len() as int) + if s == s0 {
                left - place_in_parts(ps, s0, size, left, n).1
            } else {
                0
            },
        forall|p: int|
            0 <= p < ps.len() && untouched(ps[p]) ==> #[trigger] place_in_parts(
                ps,
                s0,
                size,
                left,
                n,
            ).0[p] == ps[p],
    decreases n,
{
    if n > 0 {
        lemma_parts_counts(ps, s0, size, left, n - 1);
        let prev = place_in_parts(ps, s0, size, left, n - 1);
        let q = prev.0[n - 1];
        lemma_part_counts(q, s0, size, prev.1);
        let r = place_in_part(q, s0, size, prev.1);
        let out = prev.0.update(n - 1, r.0);
        assert forall|p: int| 0 <= p < out.len() implies (#[trigger] out[p]).wf() by {
            if p != n - 1 {
                assert(out[p] == prev.0[p]);
            }
        }
        assert forall|s: Skill| #[trigger] jewels_total(out, s, ps.len() as int) == jewels_total(
            ps,
            s,
            ps.len() as int,
        ) + if s == s0 {
            left - r.1
        } else {
            0
        } by {
            lemma_jewels_total_update(prev.0, n - 1, r.0, s, ps.len() as int);
            assert(count_jewels(r.0.jewels, s) == count_jewels(q.jewels, s) + if s == s0 {
                prev.1 - r.1
            } else {
                0
            });
            assert(jewels_total(prev.0, s, ps.len() as int) == jewels_total(ps, s, ps.len() as int)
                + if s == s0 {
                left - prev.1
            } else {
                0
            });
        }
        assert forall|p: int| 0 <= p < ps.len() && untouched(ps[p]) implies #[trigger] out[p]
            == ps[p] by {
            assert(prev.0[p] == ps[p]);
        }
    }
}

/// What a placement has done so far, from `st0` to `st`: the parts stay well
/// formed, the levels still needed only go down, each jewel placed for `s`
/// counts for a wish of `s`, and parts without a piece are left alone.
pub open spec fn fill_progress(st0: FillState, st: FillState, wishes: Seq<(Skill, u8)>) -> bool {
    &&& st.0.len() == NB_PARTS
    &&& st0.0.len() == NB_PARTS
    &&& all_wf(st.0)
    &&& st.1.len() == wishes.len()
    &&& st0.1.len() == wishes.len()
    &&& forall|i: int| 0 <= i < wishes.len() ==> #[trigger] st.1[i] <= st0.1[i]
    &&& forall|s: Skill|
        #[trigger] jewels_total(st.0, s, NB_PARTS as int) == jewels_total(st0.0, s, NB_PARTS as int)
            + placed(wishes, st0.1, st.1, s, wishes.len() as int)
    &&& forall|p: int| 0 <= p < NB_PARTS && untouched(st0.0[p]) ==> #[trigger] st.0[p] == st0.0[p]
}

proof fn lemma_placed_update(
    wishes: Seq<(Skill, u8)>,
    start: Seq<u8>,
    lefts: Seq<u8>,
    i: int,
    v: u8,
    s: Skill,
    n: int,
)
    requires
        0 <= i < lefts.len(),
        n <= lefts.len(),
    ensures
        placed(wishes, start, lefts.update(i, v), s, n) == placed(wishes, start, lefts, s, n) + if 0
            <= i < n && wishes[i].0 == s {
            lefts[i] - v
        } else {
            0
        },
    decreases n,
{
    if n > 0 {
        lemma_placed_update(wishes, start, lefts, i, v, s, n - 1);
    }
}

proof fn lemma_wish_progress(
    st0: FillState,
    st: FillState,
    wishes: Seq<(Skill, u8)>,
    i: int,
    size: u8,
)
    requires
        fill_progress(st0, st, wishes),
        0 <= i < wishes.len(),
        size >= 1,
    ensures
        fill_progress(st0, place_wish(st, wishes, i, size), wishes),
{
    if wishes[i].0.jewel_size_of() == Some(size) {
        let s0 = wishes[i].0;
        lemma_parts_counts(st.0, s0, size, st.1[i], NB_PARTS as int);
        let r = place_in_parts(st.0, s0, size, st.1[i], NB_PARTS as int);
        let out: FillState = (r.0, st.1.update(i, r.1));
        assert(out == place_wish(st, wishes, i, size));
        assert forall|j: int| 0 <= j < wishes.len() implies #[trigger] out.1[j] <= st0.1[j] by {
            assert(st.1[j] <= st0.1[j]);
        }
        assert forall|s: Skill| #[trigger] jewels_total(out.0, s, NB_PARTS as int) == jewels_total(
            st0.0,
            s,
            NB_PARTS as int,
        ) + placed(wishes, st0.1, out.1, s, wishes.len() as int) by {
            lemma_placed_update(wishes, st0.1, st.1, i, r.1, s, wishes.len() as int);
            assert(jewels_total(r.0, s, NB_PARTS as int) == jewels_total(st.0, s, NB_PARTS as int)
                + if s == s0 {
                st.1[i] - r.1
            } else {
                0
            });
            assert(jewels_total(st.0, s, NB_PARTS as int) == jewels_total(st0.0, s, NB_PARTS as int)
                + placed(wishes, st0.1, st.1, s, wishes.len() as int));
        }
        assert forall|p: int| 0 <= p < NB_PARTS && untouched(st0.0[p]) implies #[trigger] out.0[p]
            == st0.0[p] by {
            assert(st.0[p] == st0.0[p]);
        }
    }
}

proof fn lemma_round_progress(
    st0: FillState,
    st: FillState,
    wishes: Seq<(Skill, u8)>,
    size: u8,
    n: int,
)
    requires
        fill_progress(st0, st, wishes),
        0 <= n <= wishes.len(),
        size >= 1,
    ensures
        fill_progress(st0, place_round(st, wishes, size, n), wishes),
    decreases n,
{
    if n > 0 {
        lemma_round_progress(st0, st, wishes, size, n - 1);
        lemma_wish_progress(st0, place_round(st, wishes, size, n - 1), wishes, n - 1, size);
    }
}

proof fn lemma_placed_none(wishes: Seq<(Skill, u8)>, start: Seq<u8>, s: Skill, n: int)
    ensures
        placed(wishes, start, start, s, n) == 0,
    decreases n,
{
    if n > 0 {
        lemma_placed_none(wishes, start, s, n - 1);
    }
}

/// The placement of all wishes makes progress as [`fill_progress`] says.
pub proof fn lemma_place_all_progress(st0: FillState, wishes: Seq<(Skill, u8)>)
    requires
        st0.0.len() == NB_PARTS,
        all_wf(st0.0),
        st0.1.len() == wishes.len(),
    ensures
        fill_progress(st0, place_all(st0, wishes), wishes),
{
    assert forall|s: Skill| #[trigger] jewels_total(st0.0, s, NB_PARTS as int) == jewels_total(
        st0.0,
        s,
        NB_PARTS as int,
    ) + placed(wishes, st0.1, st0.1, s, wishes.len() as int) by {
        lemma_placed_none(wishes, st0.1, s, wishes.len() as int);
    }
    let n = wishes.len() as int;
    lemma_round_progress(st0, st0, wishes, 3, n);
    let a = place_round(st0, wishes, 3, n);
    lemma_round_progress(st0, a, wishes, 2, n);
    let b = place_round(a, wishes, 2, n);
    lemma_round_progress(st0, b, wishes, 1, n);
}

/// Once every level is granted, the jewels of `s` are at least what a wish
/// of `s` needed.
pub proof fn lemma_placed_covers(
    wishes: Seq<(Skill, u8)>,
    start: Seq<u8>,
    lefts: Seq<u8>,
    i: int,
    n: int,
)
    requires
        0 <= i < n <= wishes.len(),
        n <= lefts.len(),
        n <= start.len(),
        forall|j: int| 0 <= j < n ==> #[trigger] lefts[j] <= start[j],
    ensures
        placed(wishes, start, lefts, wishes[i].0, n) >= start[i] - lefts[i],
    decreases n,
{
    if i < n - 1 {
        lemma_placed_covers(wishes, start, lefts, i, n - 1);
    } else {
        lemma_placed_nonneg(wishes, start, lefts, wishes[i].0, n - 1);
    }
}

proof fn lemma_placed_nonneg(
    wishes: Seq<(Skill, u8)>,
    start: Seq<u8>,
    lefts: Seq<u8>,
    s: Skill,
    n: int,
)
    requires
        n <= lefts.len(),
        n <= start.len(),
        forall|j: int| 0 <= j < n ==> #[trigger] lefts[j] <= start[j],
    ensures
        placed(wishes, start, lefts, s, n) >= 0,
    decreases n,
{
    if n > 0 {
        lemma_placed_nonneg(wishes, start, lefts, s, n - 1);
    }
}

} // verus!
