//! Puzzles from solutions: counting the completions of a partial assignment with a
//! propagating backtracking search, and hiding cells while the puzzle keeps one solution.

use rand::rngs::StdRng;
use vstd::prelude::*;

use crate::cube::{
    coord_at_slot, coord_from_slot, iter_surface_coords, lemma_related_symmetric, related_spec, slot_of,
    CubeCoord, Difficulty,
};
use crate::digits::{lookup, CoordSet, DigitMap};
use crate::grid::CubeGrid;
use crate::random::{lemma_shuffled_same_members, shuffle};

verus! {

/// Whether `m` fills the whole surface with digits 1 to 9 and no two related cells hold
/// the same digit.
pub open spec fn is_solution(m: Map<CubeCoord, u8>) -> bool {
    &&& forall|c: CubeCoord| #[trigger] m.dom().contains(c) <==> c.on_surface()
    &&& forall|c: CubeCoord| #[trigger] m.dom().contains(c) ==> 1 <= m[c] <= 9
    &&& forall|c: CubeCoord, d: CubeCoord|
        #![trigger m[c], m[d]]
        m.dom().contains(c) && m.dom().contains(d) && related_spec(c, d) ==> m[c] != m[d]
}

/// Whether `m` agrees with every entry of `partial`.
pub open spec fn extends(m: Map<CubeCoord, u8>, partial: Map<CubeCoord, u8>) -> bool {
    forall|c: CubeCoord| #[trigger] partial.dom().contains(c) ==> m.dom().contains(c) && m[c] == partial[c]
}

/// Whether `partial` can be completed to a solution.
pub open spec fn solvable(partial: Map<CubeCoord, u8>) -> bool {
    exists|m: Map<CubeCoord, u8>| is_solution(m) && extends(m, partial)
}

/// Whether `partial` has at most one completion to a solution.
pub open spec fn at_most_one_completion(partial: Map<CubeCoord, u8>) -> bool {
    forall|m1: Map<CubeCoord, u8>, m2: Map<CubeCoord, u8>|
        #![trigger extends(m1, partial), extends(m2, partial)]
        is_solution(m1) && is_solution(m2) && extends(m1, partial) && extends(m2, partial) ==> m1 == m2
}

/// `ws` lists different completions of `partial`.
pub open spec fn lists_completions(ws: Seq<Map<CubeCoord, u8>>, partial: Map<CubeCoord, u8>) -> bool {
    &&& ws.no_duplicates()
    &&& forall|i: int| 0 <= i < ws.len() ==> is_solution(#[trigger] ws[i]) && extends(ws[i], partial)
}

/// Whether `r` counts the completions of `partial` up to `limit`: there are `r` different
/// completions, and when `r` is below `limit` there is no other. So `r` is the number of
/// completions when there are fewer than `limit`, and `limit` otherwise.
pub open spec fn counts_completions(partial: Map<CubeCoord, u8>, r: nat, limit: nat) -> bool {
    exists|ws: Seq<Map<CubeCoord, u8>>|
        {
            &&& #[trigger] lists_completions(ws, partial)
            &&& ws.len() == r
            &&& r < limit ==> forall|m: Map<CubeCoord, u8>| is_solution(m) && extends(m, partial) ==> ws.contains(m)
        }
}

/// Whether slot `s` holds a surface cell.
pub open spec fn surface_slot(s: int) -> bool {
    0 <= s < 729 && coord_at_slot(s).on_surface()
}

/// Whether digit `v` is a candidate of slot `s` in the flat candidate table.
spec fn cand_at(cand: Seq<bool>, s: int, v: int) -> bool {
    cand[s * 10 + v]
}

/// The number of surface slots below `n` without a value.
pub open spec fn count_free(v: Seq<u8>, n: int) -> nat
    decreases n,
{
    if n <= 0 {
        0
    } else {
        count_free(v, n - 1) + (if surface_slot(n - 1) && v[n - 1] == 0 {
            1nat
        } else {
            0nat
        })
    }
}

proof fn lemma_count_free_update(v: Seq<u8>, s: int, x: u8, n: int)
    requires
        v.len() == 729,
        n <= 729,
        0 <= s < v.len(),
        surface_slot(s),
        v[s] == 0,
        x != 0,
    ensures
        count_free(v.update(s, x), n) + (if s < n {
            1nat
        } else {
            0nat
        }) == count_free(v, n),
    decreases n,
{
    if n > 0 {
        lemma_count_free_update(v, s, x, n - 1);
    }
}

proof fn lemma_count_free_same(v: Seq<u8>, w: Seq<u8>, n: int)
    requires
        forall|i: int| 0 <= i < n ==> (v[i] == 0) == (w[i] == 0),
    ensures
        count_free(v, n) == count_free(w, n),
    decreases n,
{
    if n > 0 {
        lemma_count_free_same(v, w, n - 1);
    }
}

proof fn lemma_count_free_zero(v: Seq<u8>, n: int)
    requires
        count_free(v, n) == 0,
    ensures
        forall|i: int| 0 <= i < n && surface_slot(i) ==> v[i] != 0,
    decreases n,
{
    if n > 0 {
        lemma_count_free_zero(v, n - 1);
    }
}

proof fn lemma_count_free_positive(v: Seq<u8>, n: int, i: int)
    requires
        0 <= i < n,
        surface_slot(i),
        v[i] == 0,
    ensures
        count_free(v, n) > 0,
    decreases n,
{
    if n - 1 > i {
        lemma_count_free_positive(v, n - 1, i);
    }
}

/// The related cells of every surface slot, computed once for a search.
pub struct RelatedTable {
    lists: Vec<Vec<CubeCoord>>,
}

impl RelatedTable {
    /// Slot `s` of a surface cell lists exactly the cells related to it.
    pub closed spec fn wf(&self) -> bool {
        &&& self.lists@.len() == 729
        &&& forall|s: int|
            #![trigger self.lists@[s]]
            surface_slot(s) ==> forall|d: CubeCoord|
                self.lists@[s]@.contains(d) <==> related_spec(coord_at_slot(s), d)
    }

    /// The table for the whole surface.
    pub fn new() -> (r: RelatedTable)
        ensures
            r.wf(),
    {
        let mut lists: Vec<Vec<CubeCoord>> = Vec::new();
        let mut s: usize = 0;
        while s < 729
            invariant
                s <= 729,
                lists@.len() == s,
                forall|t: int|
                    #![trigger lists@[t]]
                    0 <= t < s && surface_slot(t) ==> forall|d: CubeCoord|
                        lists@[t]@.contains(d) <==> related_spec(coord_at_slot(t), d),
            decreases 729 - s,
        {
            let c = coord_from_slot(s);
            if c.is_surface() {
                lists.push(c.related());
            } else {
                lists.push(Vec::new());
            }
            s = s + 1;
        }
        RelatedTable { lists }
    }
}

/// The state of a search: the candidate digits of every slot and the digits assigned.
struct Search {
    /// `cand[s * 10 + v]`: digit `v` is still possible for slot `s`.
    cand: Vec<bool>,
    /// The digit assigned to each slot, 0 when none.
    value: Vec<u8>,
    /// The number of surface slots without a digit.
    free: usize,
}

/// Whether assignment `v` gives no two related surface slots the same digit.
spec fn consistent(v: Seq<u8>) -> bool {
    forall|s: int, t: int|
        #![trigger v[s], v[t]]
        surface_slot(s) && surface_slot(t) && related_spec(coord_at_slot(s), coord_at_slot(t)) && v[s] != 0
            ==> v[s] != v[t]
}

/// Whether solution `m` gives every assigned slot its digit.
spec fn agrees(m: Map<CubeCoord, u8>, v: Seq<u8>) -> bool {
    forall|s: int| 0 <= s < 729 && #[trigger] v[s] != 0 ==> m[coord_at_slot(s)] == v[s]
}

impl Search {
    spec fn wf(&self) -> bool {
        &&& self.cand@.len() == 7290
        &&& self.value@.len() == 729
        &&& forall|s: int| 0 <= s < 729 ==> #[trigger] self.value@[s] <= 9
        &&& forall|s: int| 0 <= s < 729 && #[trigger] self.value@[s] != 0 ==> surface_slot(s)
        &&& self.free == count_free(self.value@, 729)
        &&& consistent(self.value@)
    }

    /// Whether every digit of solution `m` is still a candidate.
    spec fn keeps(&self, m: Map<CubeCoord, u8>) -> bool {
        forall|s: int| #[trigger] surface_slot(s) ==> cand_at(self.cand@, s as int, m[coord_at_slot(s)] as int)
    }

    fn new() -> (r: Search)
        ensures
            r.wf(),
            forall|m: Map<CubeCoord, u8>| is_solution(m) ==> agrees(m, r.value@) && r.keeps(m),
    {
        let mut cand: Vec<bool> = Vec::new();
        let mut i: usize = 0;
        while i < 7290
            invariant
                i <= 7290,
                cand@.len() == i,
                forall|k: int| 0 <= k < i ==> cand@[k],
            decreases 7290 - i,
        {
            cand.push(true);
            i = i + 1;
        }
        let mut value: Vec<u8> = Vec::new();
        let mut free: usize = 0;
        let mut s: usize = 0;
        while s < 729
            invariant
                s <= 729,
                value@.len() == s,
                forall|k: int| 0 <= k < s ==> value@[k] == 0,
                free == count_free(value@, s as int),
                free <= s,
            decreases 729 - s,
        {
            let c = coord_from_slot(s);
            let ghost before = value@;
            value.push(0);
            proof {
                lemma_count_free_same(before, value@, s as int);
            }
            if c.is_surface() {
                free = free + 1;
            }
            s = s + 1;
        }
        let r = Search { cand, value, free };
        proof {
            assert forall|m: Map<CubeCoord, u8>| is_solution(m) implies r.keeps(m) by {
                assert forall|t: int| #[trigger] surface_slot(t) implies cand_at(r.cand@, t as int, m[coord_at_slot(t)] as int) by {
                    crate::cube::lemma_slot_bijection(coord_at_slot(t), t);
                    assert(m.dom().contains(coord_at_slot(t)));
                    assert(1 <= m[coord_at_slot(t)] <= 9);
                    assert(0 <= t * 10 + m[coord_at_slot(t)] < 7290) by (nonlinear_arith)
                        requires
                            0 <= t < 729,
                            1 <= m[coord_at_slot(t)] <= 9,
                    ;
                }
            }
        }
        r
    }

    fn copy(&self) -> (r: Search)
        ensures
            r.cand@ == self.cand@,
            r.value@ == self.value@,
            r.free == self.free,
    {
        let mut cand: Vec<bool> = Vec::new();
        let mut i: usize = 0;
        while i < self.cand.len()
            invariant
                i <= self.cand@.len(),
                cand@ == self.cand@.take(i as int),
            decreases self.cand@.len() - i,
        {
            cand.push(self.cand[i]);
            proof {
                assert(cand@ =~= self.cand@.take(i + 1));
            }
            i = i + 1;
        }
        let mut value: Vec<u8> = Vec::new();
        let mut j: usize = 0;
        while j < self.value.len()
            invariant
                j <= self.value@.len(),
                value@ == self.value@.take(j as int),
            decreases self.value@.len() - j,
        {
            value.push(self.value[j]);
            proof {
                assert(value@ =~= self.value@.take(j + 1));
            }
            j = j + 1;
        }
        proof {
            assert(cand@ =~= self.cand@);
            assert(value@ =~= self.value@);
        }
        Search { cand, value, free: self.free }
    }
}


impl RelatedTable {
    /// The cells related to the surface cell in slot `s`.
    fn related_of(&self, s: usize) -> (r: &Vec<CubeCoord>)
        requires
            self.wf(),
            surface_slot(s as int),
        ensures
            forall|d: CubeCoord| r@.contains(d) <==> related_spec(coord_at_slot(s as int), d),
    {
        &self.lists[s]
    }
}

/// Distinct (slot, digit) pairs have distinct candidate indices.
proof fn lemma_cand_index(s: int, a: int, t: int, b: int)
    requires
        0 <= a < 10,
        0 <= b < 10,
        s * 10 + a == t * 10 + b,
    ensures
        s == t,
        a == b,
{
    assert(s == t && a == b) by (nonlinear_arith)
        requires
            0 <= a < 10,
            0 <= b < 10,
            s * 10 + a == t * 10 + b,
    ;
}

proof fn lemma_cand_index_bound(s: int, a: int)
    requires
        0 <= s < 729,
        0 <= a < 10,
    ensures
        0 <= s * 10 + a < 7290,
{
    assert(0 <= s * 10 + a < 7290) by (nonlinear_arith)
        requires
            0 <= s < 729,
            0 <= a < 10,
    ;
}

/// Whether `new` keeps every digit assigned in `old`.
spec fn keeps_values(new: Seq<u8>, old: Seq<u8>) -> bool {
    forall|s: int| 0 <= s < 729 && #[trigger] old[s] != 0 ==> new[s] == old[s]
}

/// Every slot that is free in `new` was free in `old`, and every candidate it has in `new`
/// it had in `old`: candidates are only taken away, and assigned slots stay assigned.
spec fn narrowed(new: Search, old: Search) -> bool {
    forall|s: int, w: int|
        #![trigger cand_at(new.cand@, s, w)]
        0 <= s < 729 && 1 <= w <= 9 && new.value@[s] == 0 && cand_at(new.cand@, s, w) ==> old.value@[s] == 0
            && cand_at(old.cand@, s, w)
}

/// The number of candidates of slot `t` among the digits 1 to 9, with the last one found.
fn candidates_left(cand: &Vec<bool>, t: usize) -> (r: (usize, u8))
    requires
        cand@.len() == 7290,
        t < 729,
    ensures
        r.0 == 0 ==> forall|v: int| 1 <= v <= 9 ==> !cand_at(cand@, t as int, v as int),
        r.0 == 1 ==> 1 <= r.1 <= 9 && forall|v: int| 1 <= v <= 9 ==> (cand_at(cand@, t as int, v as int) <==> v == r.1),
{
    let mut n: usize = 0;
    let mut last: u8 = 0;
    let mut v: u8 = 1;
    while v <= 9
        invariant
            cand@.len() == 7290,
            t < 729,
            1 <= v <= 10,
            n <= v,
            n == 0 ==> forall|w: int| 1 <= w < v ==> !cand_at(cand@, t as int, w as int),
            n == 1 ==> 1 <= last < v && forall|w: int| 1 <= w < v ==> (cand_at(cand@, t as int, w as int) <==> w == last),
        decreases 10 - v,
    {
        proof {
            lemma_cand_index_bound(t as int, v as int);
        }
        if cand[t * 10 + v as usize] {
            n = n + 1;
            last = v;
        }
        v = v + 1;
    }
    (n, last)
}

/// Removes `value` from the candidates of the free cells related to `coord` (which holds
/// `value`); a cell left with one candidate gets it assigned, and a cell left with none
/// makes the assignment fail.
fn propagate(st: &mut Search, rel: &RelatedTable, coord: CubeCoord, value: u8) -> (r: bool)
    requires
        old(st).wf(),
        rel.wf(),
        coord.on_surface(),
        1 <= value <= 9,
        old(st).value@[coord.slot()] == value,
    ensures
        final(st).cand@.len() == 7290,
        final(st).value@.len() == 729,
        r ==> final(st).wf() && keeps_values(final(st).value@, old(st).value@) && final(st).free <= old(st).free,
        r ==> forall|d: CubeCoord|
            #![trigger related_spec(coord, d)]
            related_spec(coord, d) && final(st).value@[d.slot()] == 0 ==> !cand_at(final(st).cand@, d.slot(), value as int),
        narrowed(*final(st), *old(st)),
        forall|m: Map<CubeCoord, u8>|
            is_solution(m) && agrees(m, old(st).value@) && old(st).keeps(m) ==> r && agrees(m, final(st).value@)
                && final(st).keeps(m),
    decreases old(st).free, 1nat,
{
    proof {
        crate::cube::lemma_slot_bijection(coord, 0);
    }
    let cs = slot_of(coord);
    let list = rel.related_of(cs);
    let ghost st0 = *st;
    let mut i: usize = 0;
    while i < list.len()
        invariant
            st.wf(),
            rel.wf(),
            coord.on_surface(),
            1 <= value <= 9,
            cs == coord.slot(),
            0 <= cs < 729,
            coord_at_slot(cs as int) == coord,
            st0 == *old(st),
            i <= list@.len(),
            forall|d: CubeCoord| list@.contains(d) <==> related_spec(coord, d),
            st.value@[cs as int] == value,
            keeps_values(st.value@, st0.value@),
            st.free <= st0.free,
            narrowed(*st, st0),
            forall|k: int|
                0 <= k < i ==> (st.value@[(#[trigger] list@[k]).slot()] == 0 ==> !cand_at(
                    st.cand@,
                    list@[k].slot(),
                    value as int,
                )),
            forall|m: Map<CubeCoord, u8>|
                is_solution(m) && agrees(m, st0.value@) && st0.keeps(m) ==> agrees(m, st.value@) && st.keeps(m),
        decreases list@.len() - i,
    {
        let ghost prev = *st;
        let cur = list[i];
        proof {
            assert(list@[i as int] == cur);
            assert(list@.contains(cur));
            assert(related_spec(coord, cur));
            assert(cur.in_box());
            crate::cube::lemma_slot_bijection(cur, 0);
        }
        let t = slot_of(cur);
        if st.value[t] == 0 {
            proof {
                lemma_cand_index_bound(t as int, value as int);
            }
            let idx = t * 10 + value as usize;
            let removed = st.cand[idx];
            let ghost before = *st;
            st.cand.set(idx, false);
            proof {
                assert forall|s2: int, w: int|
                    #![trigger cand_at(st.cand@, s2, w)]
                    0 <= s2 < 729 && 1 <= w <= 9 && st.value@[s2] == 0 && cand_at(st.cand@, s2, w) implies before.value@[s2] == 0
                        && cand_at(before.cand@, s2, w) by {
                    lemma_cand_index_bound(s2, w);
                    if s2 * 10 + w != idx {
                        assert(st.cand@[s2 * 10 + w] == before.cand@[s2 * 10 + w]);
                    }
                }
                assert(narrowed(*st, before));
                lemma_narrowed_trans(*st, before, st0);
                assert(!cand_at(st.cand@, t as int, value as int));
            }
            proof {
                assert forall|m: Map<CubeCoord, u8>|
                    is_solution(m) && agrees(m, st0.value@) && st0.keeps(m) implies agrees(m, st.value@) && st.keeps(
                    m,
                ) by {
                    assert(before.keeps(m));
                    assert forall|s: int| #[trigger] surface_slot(s) implies cand_at(st.cand@, s as int, m[coord_at_slot(s)] as int) by {
                        assert(cand_at(before.cand@, s as int, m[coord_at_slot(s)] as int));
                        crate::cube::lemma_slot_bijection(coord_at_slot(s), s);
                        assert(m.dom().contains(coord_at_slot(s)));
                        if s * 10 + m[coord_at_slot(s)] == idx {
                            lemma_cand_index(s, m[coord_at_slot(s)] as int, t as int, value as int);
                            assert(m.dom().contains(coord));
                            assert(m[coord] == value);
                            assert(m[cur] != m[coord]);
                        }
                    }
                }
            }
            let (n, last) = candidates_left(&st.cand, t);
            if removed && n == 1 {
                let ghost mid = *st;
                proof {
                    assert forall|m: Map<CubeCoord, u8>|
                        is_solution(m) && agrees(m, st0.value@) && st0.keeps(m) implies m[cur] == last by {
                        assert(mid.keeps(m));
                        assert(surface_slot(t as int));
                        assert(m.dom().contains(cur));
                        assert(cand_at(mid.cand@, t as int, (m[coord_at_slot(t as int)]) as int));
                    }
                }
                if !assign_free(st, rel, cur, last) {
                    proof {
                        lemma_narrowed_trans(*st, mid, st0);
                    }
                    return false;
                }
                proof {
                    lemma_narrowed_trans(*st, mid, st0);
                }
            } else if n == 0 {
                proof {
                    assert forall|m: Map<CubeCoord, u8>|
                        is_solution(m) && agrees(m, st0.value@) && st0.keeps(m) implies false by {
                        assert(st.keeps(m));
                        assert(surface_slot(t as int));
                        assert(m.dom().contains(cur));
                        assert(cand_at(st.cand@, t as int, (m[coord_at_slot(t as int)]) as int));
                    }
                }
                return false;
            }
        }
        proof {
            lemma_narrowed_trans(*st, prev, st0);
            assert forall|k: int|
                0 <= k < i + 1 implies (st.value@[(#[trigger] list@[k]).slot()] == 0 ==> !cand_at(
                st.cand@,
                list@[k].slot(),
                value as int,
            )) by {
                if st.value@[list@[k].slot()] == 0 && cand_at(st.cand@, list@[k].slot(), value as int) {
                    assert(list@.contains(list@[k]));
                    assert(related_spec(coord, list@[k]));
                    lemma_slot_range(list@[k]);
                    assert(prev.value@[list@[k].slot()] == 0);
                }
            }
        }
        i = i + 1;
    }
    proof {
        assert forall|d: CubeCoord|
            #![trigger related_spec(coord, d)]
            related_spec(coord, d) && st.value@[d.slot()] == 0 implies !cand_at(st.cand@, d.slot(), value as int) by {
            assert(list@.contains(d));
            let k = choose|k: int| 0 <= k < list@.len() && list@[k] == d;
        }
    }
    true
}

/// Narrowing twice is narrowing.
proof fn lemma_narrowed_trans(c: Search, b: Search, a: Search)
    requires
        narrowed(c, b),
        narrowed(b, a),
    ensures
        narrowed(c, a),
{
    assert forall|s: int, w: int|
        #![trigger cand_at(c.cand@, s, w)]
        0 <= s < 729 && 1 <= w <= 9 && c.value@[s] == 0 && cand_at(c.cand@, s, w) implies a.value@[s] == 0 && cand_at(
        a.cand@,
        s,
        w,
    ) by {
        assert(cand_at(b.cand@, s, w));
    }
}

/// The slot of an in-box coordinate lies in the lattice.
proof fn lemma_slot_range(c: CubeCoord)
    requires
        c.in_box(),
    ensures
        0 <= c.slot() < 729,
{
    crate::cube::lemma_slot_bijection(c, 0);
}

/// Assigns `value` to the free cell `coord` when no related cell holds it, then
/// propagates.
fn assign_free(st: &mut Search, rel: &RelatedTable, coord: CubeCoord, value: u8) -> (r: bool)
    requires
        old(st).wf(),
        rel.wf(),
        coord.on_surface(),
        1 <= value <= 9,
        old(st).value@[coord.slot()] == 0,
    ensures
        final(st).cand@.len() == 7290,
        final(st).value@.len() == 729,
        r ==> final(st).wf() && final(st).value@[coord.slot()] == value && keeps_values(
            final(st).value@,
            old(st).value@,
        ) && final(st).free < old(st).free,
        narrowed(*final(st), *old(st)),
        forall|m: Map<CubeCoord, u8>|
            is_solution(m) && agrees(m, old(st).value@) && old(st).keeps(m) && m[coord] == value ==> r && agrees(
                m,
                final(st).value@,
            ) && final(st).keeps(m),
    decreases old(st).free, 0nat,
{
    proof {
        crate::cube::lemma_slot_bijection(coord, 0);
    }
    let cs = slot_of(coord);
    if !check_and_set(st, rel, coord, value) {
        return false;
    }
    let ghost mid = *st;
    let ok = propagate(st, rel, coord, value);
    proof {
        lemma_narrowed_trans(*st, mid, *old(st));
        assert(mid.free < old(st).free);
        if ok {
            assert(mid.value@[cs as int] == value);
            assert(mid.value@[cs as int] != 0);
            assert(st.value@[cs as int] == value);
            assert forall|t: int| 0 <= t < 729 && #[trigger] old(st).value@[t] != 0 implies st.value@[t] == old(st).value@[t] by {
                assert(mid.value@[t] == old(st).value@[t]);
            }
        }
    }
    ok
}

/// Checks that no cell related to `coord` holds `value`, then gives `coord` the value and
/// the single candidate `value`.
fn check_and_set(st: &mut Search, rel: &RelatedTable, coord: CubeCoord, value: u8) -> (r: bool)
    requires
        old(st).wf(),
        rel.wf(),
        coord.on_surface(),
        1 <= value <= 9,
    ensures
        final(st).cand@.len() == 7290,
        final(st).value@.len() == 729,
        r ==> final(st).wf() && final(st).value@ == old(st).value@.update(coord.slot(), value),
        r ==> final(st).free == (if old(st).value@[coord.slot()] == 0 {
            old(st).free - 1
        } else {
            old(st).free as int
        }),
        narrowed(*final(st), *old(st)),
        forall|m: Map<CubeCoord, u8>|
            is_solution(m) && agrees(m, old(st).value@) && old(st).keeps(m) && m[coord] == value ==> r && agrees(
                m,
                final(st).value@,
            ) && final(st).keeps(m),
{
    proof {
        crate::cube::lemma_slot_bijection(coord, 0);
    }
    let cs = slot_of(coord);
    let list = rel.related_of(cs);
    let mut i: usize = 0;
    while i < list.len()
        invariant
            st.wf(),
            *st == *old(st),
            coord.on_surface(),
            1 <= value <= 9,
            cs == coord.slot(),
            i <= list@.len(),
            forall|d: CubeCoord| list@.contains(d) <==> related_spec(coord, d),
            forall|k: int| 0 <= k < i ==> st.value@[(#[trigger] list@[k]).slot()] != value,
        decreases list@.len() - i,
    {
        let d = list[i];
        proof {
            assert(list@[i as int] == d);
            assert(list@.contains(d));
            assert(related_spec(coord, d));
            assert(d.in_box());
            crate::cube::lemma_slot_bijection(d, 0);
        }
        if st.value[slot_of(d)] == value {
            proof {
                assert forall|m: Map<CubeCoord, u8>|
                    is_solution(m) && agrees(m, old(st).value@) && old(st).keeps(m) && m[coord] == value implies false by {
                    crate::cube::lemma_slot_bijection(d, 0);
                    assert(st.value@[d.slot()] != 0);
                    assert(m[coord_at_slot(d.slot())] == value);
                    assert(m.dom().contains(d));
                    assert(m.dom().contains(coord));
                }
            }
            return false;
        }
        i = i + 1;
    }
    let ghost before = st.value@;
    let was_free = st.value[cs] == 0;
    st.value.set(cs, value);
    if was_free {
        proof {
            lemma_count_free_update(before, cs as int, value, 729);
        }
        st.free = st.free - 1;
    } else {
        proof {
            lemma_count_free_same(before, st.value@, 729);
        }
    }
    let ghost cand0 = st.cand@;
    let ghost vals = st.value@;
    let ghost fr = st.free;
    let mut v: usize = 1;
    while v <= 9
        invariant
            1 <= v <= 10,
            1 <= value <= 9,
            cs < 729,
            st.value@ == vals,
            st.free == fr,
            st.cand@.len() == 7290,
            forall|k: int| 0 <= k < 7290 && !(cs * 10 + 1 <= k < cs * 10 + v) ==> st.cand@[k] == cand0[k],
            forall|w: int| 1 <= w < v ==> cand_at(st.cand@, cs as int, w as int) == (w == value),
        decreases 10 - v,
    {
        proof {
            lemma_cand_index_bound(cs as int, v as int);
        }
        let ghost prev = st.cand@;
        st.cand.set(cs * 10 + v, v == value as usize);
        proof {
            assert forall|w: int| 1 <= w < v + 1 implies cand_at(st.cand@, cs as int, w as int) == (w == value) by {
                if w < v {
                    assert(cand_at(prev, cs as int, w as int) == (w == value));
                }
            }
        }
        v = v + 1;
    }
    proof {
        assert forall|s: int, t: int|
            #![trigger st.value@[s], st.value@[t]]
            surface_slot(s) && surface_slot(t) && related_spec(coord_at_slot(s), coord_at_slot(t)) && st.value@[s] != 0
                implies st.value@[s] != st.value@[t] by {
            if s == cs as int {
                crate::cube::lemma_slot_bijection(coord_at_slot(t), t);
                assert(list@.contains(coord_at_slot(t)));
                let k = choose|k: int| 0 <= k < list@.len() && list@[k] == coord_at_slot(t);
                assert(before[(list@[k]).slot()] != value);
            } else if t == cs as int {
                crate::cube::lemma_slot_bijection(coord_at_slot(s), s);
                lemma_related_symmetric(coord_at_slot(s), coord_at_slot(t));
                assert(list@.contains(coord_at_slot(s)));
                let k = choose|k: int| 0 <= k < list@.len() && list@[k] == coord_at_slot(s);
                assert(before[(list@[k]).slot()] != value);
            } else {
                assert(before[s] == st.value@[s]);
                assert(before[t] == st.value@[t]);
            }
        }
        assert forall|m: Map<CubeCoord, u8>|
            is_solution(m) && agrees(m, old(st).value@) && old(st).keeps(m) && m[coord] == value implies agrees(
            m,
            st.value@,
        ) && st.keeps(m) by {
            assert forall|s: int| #[trigger] surface_slot(s) implies cand_at(st.cand@, s as int, m[coord_at_slot(s)] as int) by {
                crate::cube::lemma_slot_bijection(coord_at_slot(s), s);
                assert(m.dom().contains(coord_at_slot(s)));
                assert(cand_at(old(st).cand@, s as int, m[coord_at_slot(s)] as int));
                if s == cs as int {
                } else if cs * 10 + 1 <= s * 10 + m[coord_at_slot(s)] < cs * 10 + 10 {
                    lemma_cand_index(s, m[coord_at_slot(s)] as int, cs as int, s * 10 + m[coord_at_slot(s)] - cs * 10);
                }
            }
        }
    }
    true
}

/// Assigns `value` to `coord` (which may already hold a value, as an entry of the given
/// partial assignment can), then propagates.
fn assign_top(st: &mut Search, rel: &RelatedTable, coord: CubeCoord, value: u8) -> (r: bool)
    requires
        old(st).wf(),
        rel.wf(),
        coord.on_surface(),
        1 <= value <= 9,
    ensures
        final(st).cand@.len() == 7290,
        final(st).value@.len() == 729,
        r ==> final(st).wf() && final(st).value@[coord.slot()] == value,
        r ==> forall|t: int|
            0 <= t < 729 && t != coord.slot() && #[trigger] old(st).value@[t] != 0 ==> final(st).value@[t]
                == old(st).value@[t],
        forall|m: Map<CubeCoord, u8>|
            is_solution(m) && agrees(m, old(st).value@) && old(st).keeps(m) && m[coord] == value ==> r && agrees(
                m,
                final(st).value@,
            ) && final(st).keeps(m),
{
    proof {
        crate::cube::lemma_slot_bijection(coord, 0);
    }
    let cs = slot_of(coord);
    if st.value[cs] == 0 {
        return assign_free(st, rel, coord, value);
    }
    if !check_and_set(st, rel, coord, value) {
        return false;
    }
    let ghost mid = *st;
    let ok = propagate(st, rel, coord, value);
    proof {
        if ok {
            assert(mid.value@[cs as int] != 0);
            assert forall|t: int|
                0 <= t < 729 && t != coord.slot() && #[trigger] old(st).value@[t] != 0 implies st.value@[t]
                    == old(st).value@[t] by {
                assert(mid.value@[t] == old(st).value@[t]);
            }
        }
    }
    ok
}

/// The free surface slot with the fewest candidates (the first such slot).
fn pick_free_slot(st: &Search) -> (r: usize)
    requires
        st.wf(),
        st.free > 0,
    ensures
        surface_slot(r as int),
        st.value@[r as int] == 0,
{
    let mut best: usize = 729;
    let mut best_n: usize = 10;
    let mut s: usize = 0;
    while s < 729
        invariant
            st.wf(),
            st.free > 0,
            s <= 729,
            best <= 729,
            best == 729 ==> forall|t: int| 0 <= t < s ==> !(surface_slot(t) && st.value@[t] == 0),
            best < 729 ==> surface_slot(best as int) && st.value@[best as int] == 0,
        decreases 729 - s,
    {
        let c = coord_from_slot(s);
        if c.is_surface() && st.value[s] == 0 {
            let mut n: usize = 0;
            let mut v: usize = 1;
            while v <= 9
                invariant
                    st.wf(),
                    st.free > 0,
                    st.cand@.len() == 7290,
                    s < 729,
                    1 <= v <= 10,
                    n < v,
                    best <= 729,
                    best == 729 ==> forall|t: int| 0 <= t < s ==> !(surface_slot(t) && st.value@[t] == 0),
                    best < 729 ==> surface_slot(best as int) && st.value@[best as int] == 0,
                decreases 10 - v,
            {
                proof {
                    lemma_cand_index_bound(s as int, v as int);
                }
                if st.cand[s * 10 + v] {
                    n = n + 1;
                }
                v = v + 1;
            }
            if best == 729 || n < best_n {
                best = s;
                best_n = n;
            }
        }
        s = s + 1;
    }
    proof {
        if best == 729 {
            assert forall|t: int| 0 <= t < 729 && surface_slot(t) implies st.value@[t] != 0 by {
            }
            lemma_free_zero_of_all_assigned(st.value@, 729);
        }
    }
    best
}

proof fn lemma_free_zero_of_all_assigned(v: Seq<u8>, n: int)
    requires
        forall|t: int| 0 <= t < n && surface_slot(t) ==> v[t] != 0,
    ensures
        count_free(v, n) == 0,
    decreases n,
{
    if n > 0 {
        lemma_free_zero_of_all_assigned(v, n - 1);
    }
}

/// The solution that a fully assigned, consistent search state describes.
spec fn solution_of(v: Seq<u8>) -> Map<CubeCoord, u8> {
    Map::new(|c: CubeCoord| c.on_surface(), |c: CubeCoord| v[c.slot()])
}

proof fn lemma_full_state_is_solution(st: Search)
    requires
        st.wf(),
        st.free == 0,
    ensures
        is_solution(solution_of(st.value@)),
        agrees(solution_of(st.value@), st.value@),
{
    let v = st.value@;
    let m = solution_of(v);
    lemma_count_free_zero(v, 729);
    assert forall|c: CubeCoord| #[trigger] m.dom().contains(c) implies 1 <= m[c] <= 9 by {
        crate::cube::lemma_slot_bijection(c, 0);
        assert(surface_slot(c.slot()));
    }
    assert forall|c: CubeCoord, d: CubeCoord|
        #![trigger m[c], m[d]]
        m.dom().contains(c) && m.dom().contains(d) && related_spec(c, d) implies m[c] != m[d] by {
        crate::cube::lemma_slot_bijection(c, 0);
        crate::cube::lemma_slot_bijection(d, 0);
        assert(surface_slot(c.slot()));
        assert(surface_slot(d.slot()));
        assert(v[c.slot()] != 0);
        assert(v[c.slot()] != v[d.slot()]);
    }
    assert forall|s: int| 0 <= s < 729 && #[trigger] v[s] != 0 implies m[coord_at_slot(s)] == v[s] by {
        crate::cube::lemma_slot_bijection(coord_at_slot(s), s);
    }
}

/// Whether `m1` and `m2` are two different solutions that both agree with the search
/// state and keep its candidates.
spec fn two_ways(st: Search, m1: Map<CubeCoord, u8>, m2: Map<CubeCoord, u8>) -> bool {
    &&& is_solution(m1)
    &&& is_solution(m2)
    &&& m1 != m2
    &&& agrees(m1, st.value@)
    &&& agrees(m2, st.value@)
    &&& st.keeps(m1)
    &&& st.keeps(m2)
}

/// Whether two different solutions agree with assignment `v`.
spec fn two_agree(v: Seq<u8>) -> bool {
    exists|m1: Map<CubeCoord, u8>, m2: Map<CubeCoord, u8>|
        is_solution(m1) && is_solution(m2) && m1 != m2 && agrees(m1, v) && agrees(m2, v)
}

/// How many of the two digits `a` and `b` of one cell lie below `v` (both, when equal).
spec fn gained(a: u8, b: u8, v: int) -> int {
    if a == b {
        if a < v {
            2
        } else {
            0
        }
    } else {
        (if a < v {
            1int
        } else {
            0int
        }) + (if b < v {
            1int
        } else {
            0int
        })
    }
}

/// A fully assigned state is agreed with by one solution at most.
proof fn lemma_full_state_single(st: Search, m1: Map<CubeCoord, u8>, m2: Map<CubeCoord, u8>)
    requires
        st.wf(),
        st.free == 0,
        is_solution(m1),
        is_solution(m2),
        agrees(m1, st.value@),
        agrees(m2, st.value@),
    ensures
        m1 == m2,
{
    let v = st.value@;
    lemma_count_free_zero(v, 729);
    assert forall|c: CubeCoord| #[trigger] m1.dom().contains(c) implies m2.dom().contains(c) && m1[c] == m2[c] by {
        crate::cube::lemma_slot_bijection(c, 0);
        assert(surface_slot(c.slot()));
        assert(v[c.slot()] != 0);
        assert(coord_at_slot(c.slot()) == c);
    }
    assert forall|c: CubeCoord| #[trigger] m2.dom().contains(c) implies m1.dom().contains(c) by {}
    assert(m1 =~= m2);
}

/// `found` lists different solutions that agree with the assignment `v`.
spec fn found_ok(found: Seq<Map<CubeCoord, u8>>, v: Seq<u8>) -> bool {
    &&& found.no_duplicates()
    &&& forall|i: int| 0 <= i < found.len() ==> is_solution(#[trigger] found[i]) && agrees(found[i], v)
}

/// Counts the completions of the search state, one per leaf reached, stopping once `limit`
/// is reached.
#[verifier::spinoff_prover]
fn solve_count(st: &Search, rel: &RelatedTable, limit: usize, count: &mut usize)
    requires
        st.wf(),
        rel.wf(),
        *old(count) < usize::MAX,
    ensures
        *final(count) >= *old(count),
        *old(count) < limit ==> *final(count) <= limit,
        *old(count) >= limit ==> *final(count) <= *old(count) + 1,
        *final(count) > *old(count) ==> exists|m: Map<CubeCoord, u8>| is_solution(m) && agrees(m, st.value@),
        forall|m: Map<CubeCoord, u8>|
            is_solution(m) && agrees(m, st.value@) && st.keeps(m) ==> (*old(count) < limit ==> *final(count)
                > *old(count)),
        forall|m1: Map<CubeCoord, u8>, m2: Map<CubeCoord, u8>|
            #![trigger st.keeps(m1), st.keeps(m2)]
            two_ways(*st, m1, m2) ==> (*old(count) < limit ==> *final(count) >= *old(count) + 2 || *final(count)
                >= limit),
        *final(count) >= *old(count) + 2 ==> two_agree(st.value@),
        exists|found: Seq<Map<CubeCoord, u8>>|
            {
                &&& #[trigger] found_ok(found, st.value@)
                &&& *final(count) == *old(count) + found.len()
                &&& *final(count) < limit ==> forall|m: Map<CubeCoord, u8>|
                    is_solution(m) && agrees(m, st.value@) && st.keeps(m) ==> found.contains(m)
            },
    decreases st.free,
{
    if st.free == 0 {
        proof {
            lemma_full_state_is_solution(*st);
            let sol = solution_of(st.value@);
            let found = seq![sol];
            assert(found_ok(found, st.value@));
            assert forall|m: Map<CubeCoord, u8>| is_solution(m) && agrees(m, st.value@) && st.keeps(m) implies found.contains(m) by {
                lemma_full_state_single(*st, m, sol);
                assert(found[0] == m);
            }
            assert forall|m1: Map<CubeCoord, u8>, m2: Map<CubeCoord, u8>|
                #![trigger st.keeps(m1), st.keeps(m2)]
                two_ways(*st, m1, m2) implies false by {
                lemma_full_state_single(*st, m1, m2);
            }
        }
        *count = *count + 1;
        return;
    }
    if *count >= limit {
        proof {
            assert(found_ok(Seq::<Map<CubeCoord, u8>>::empty(), st.value@));
        }
        return;
    }
    let cs = pick_free_slot(st);
    let c = coord_from_slot(cs);
    let ghost start = *count;
    proof {
        assert forall|m: Map<CubeCoord, u8>| is_solution(m) && agrees(m, st.value@) && st.keeps(m) implies m[c] >= 1 by {
            assert(m.dom().contains(c));
        }
    }
    let ghost mut found: Seq<Map<CubeCoord, u8>> = Seq::empty();
    let mut v: u8 = 1;
    while v <= 9
        invariant
            found_ok(found, st.value@),
            *count == start + found.len(),
            forall|i: int| 0 <= i < found.len() ==> (#[trigger] found[i])[c] < v,
            forall|m: Map<CubeCoord, u8>|
                is_solution(m) && agrees(m, st.value@) && st.keeps(m) && m[c] < v ==> found.contains(m),
            st.wf(),
            rel.wf(),
            surface_slot(cs as int),
            st.value@[cs as int] == 0,
            c == coord_at_slot(cs as int),
            c.on_surface(),
            cs == c.slot(),
            1 <= v <= 10,
            start == *old(count),
            start < limit,
            start <= *count < limit,
            *count > start ==> exists|m: Map<CubeCoord, u8>| is_solution(m) && agrees(m, st.value@) && m[c] < v,
            *count >= start + 2 ==> two_agree(st.value@),
            *count == start ==> forall|m: Map<CubeCoord, u8>|
                is_solution(m) && agrees(m, st.value@) && st.keeps(m) ==> m[c] >= v,
            forall|m1: Map<CubeCoord, u8>, m2: Map<CubeCoord, u8>|
                #![trigger st.keeps(m1), st.keeps(m2)]
                two_ways(*st, m1, m2) ==> *count >= start + gained(m1[c], m2[c], v as int),
        decreases 10 - v,
    {
        proof {
            lemma_cand_index_bound(cs as int, v as int);
        }
        let before = *count;
        if st.cand[cs * 10 + v as usize] {
            let mut child = st.copy();
            let ghost pre = child;
            if assign_free(&mut child, rel, c, v) {
                solve_count(&child, rel, limit, count);
                proof {
                    lemma_child_agrees(*st, child);
                    if *count > before {
                        let m = choose|m: Map<CubeCoord, u8>| is_solution(m) && agrees(m, child.value@);
                        assert(m[c] == v);
                        if before > start {
                            let m0 = choose|m0: Map<CubeCoord, u8>| is_solution(m0) && agrees(m0, st.value@) && m0[c] < v;
                            assert(m0 != m);
                            assert(two_agree(st.value@));
                        }
                    }
                    if *count >= before + 2 {
                        let (m1, m2) = choose|m1: Map<CubeCoord, u8>, m2: Map<CubeCoord, u8>|
                            is_solution(m1) && is_solution(m2) && m1 != m2 && agrees(m1, child.value@) && agrees(
                                m2,
                                child.value@,
                            );
                        assert(two_agree(st.value@));
                    }
                    let wc = choose|w: Seq<Map<CubeCoord, u8>>|
                        {
                            &&& #[trigger] found_ok(w, child.value@)
                            &&& *count == before + w.len()
                            &&& *count < limit ==> forall|m: Map<CubeCoord, u8>|
                                is_solution(m) && agrees(m, child.value@) && child.keeps(m) ==> w.contains(m)
                        };
                    assert forall|i: int| 0 <= i < wc.len() implies (#[trigger] wc[i])[c] == v && agrees(wc[i], st.value@) by {
                        assert(agrees(wc[i], child.value@));
                        assert(child.value@[cs as int] == v);
                    }
                    let f2 = found + wc;
                    assert forall|i: int, j: int| 0 <= i < f2.len() && 0 <= j < f2.len() && i != j implies f2[i] != f2[j] by {
                        if i < found.len() && j >= found.len() {
                            assert(f2[i][c] < v);
                            assert(f2[j] == wc[j - found.len()]);
                        } else if j < found.len() && i >= found.len() {
                            assert(f2[j][c] < v);
                            assert(f2[i] == wc[i - found.len()]);
                        } else if i >= found.len() {
                            assert(f2[i] == wc[i - found.len()] && f2[j] == wc[j - found.len()]);
                        }
                    }
                    assert forall|i: int| 0 <= i < f2.len() implies is_solution(#[trigger] f2[i]) && agrees(f2[i], st.value@)
                        && f2[i][c] < v + 1 by {
                        if i >= found.len() {
                            assert(f2[i] == wc[i - found.len()]);
                        }
                    }
                    assert forall|m: Map<CubeCoord, u8>|
                        is_solution(m) && agrees(m, st.value@) && st.keeps(m) && m[c] < v + 1 && *count < limit implies f2.contains(m) by {
                        if m[c] < v {
                            let k = choose|k: int| 0 <= k < found.len() && found[k] == m;
                            assert(f2[k] == m);
                        } else {
                            assert(child.keeps(m) && agrees(m, child.value@));
                            let k = choose|k: int| 0 <= k < wc.len() && wc[k] == m;
                            assert(f2[found.len() + k] == m);
                        }
                    }
                    found = f2;
                    assert(found_ok(found, st.value@));
                    assert forall|m1: Map<CubeCoord, u8>, m2: Map<CubeCoord, u8>|
                        #![trigger st.keeps(m1), st.keeps(m2)]
                        two_ways(*st, m1, m2) && *count < limit implies *count >= start + gained(
                            m1[c],
                            m2[c],
                            v + 1,
                        ) by {
                        if m1[c] == v && m2[c] == v {
                            assert(two_ways(child, m1, m2));
                        } else if m1[c] == v {
                            assert(child.keeps(m1));
                        } else if m2[c] == v {
                            assert(child.keeps(m2));
                        }
                    }
                }
            } else {
                proof {
                    assert forall|m: Map<CubeCoord, u8>|
                        is_solution(m) && agrees(m, st.value@) && st.keeps(m) implies m[c] != v by {
                        if m[c] == v {
                            assert(m[coord_at_slot(cs as int)] == v);
                        }
                    }
                }
            }
            if *count >= limit {
                return;
            }
        } else {
            proof {
                assert forall|m: Map<CubeCoord, u8>|
                    is_solution(m) && agrees(m, st.value@) && st.keeps(m) implies m[c] != v by {
                    assert(surface_slot(cs as int));
                    assert(cand_at(st.cand@, cs as int, m[coord_at_slot(cs as int)] as int));
                }
            }
        }
        v = v + 1;
    }
    proof {
        assert forall|m: Map<CubeCoord, u8>|
            is_solution(m) && agrees(m, st.value@) && st.keeps(m) implies *count > start && found.contains(m) by {
            assert(m.dom().contains(c));
            assert(m[c] <= 9);
        }
        assert(found_ok(found, st.value@));
        assert forall|m1: Map<CubeCoord, u8>, m2: Map<CubeCoord, u8>|
            #![trigger st.keeps(m1), st.keeps(m2)]
            two_ways(*st, m1, m2) implies *count >= start + 2 by {
            assert(m1.dom().contains(c));
            assert(m2.dom().contains(c));
            assert(m1[c] <= 9 && m2[c] <= 9);
        }
    }
}

/// A solution that agrees with a child state agrees with its parent, whose assigned
/// values the child keeps.
proof fn lemma_child_agrees(parent: Search, child: Search)
    requires
        keeps_values(child.value@, parent.value@),
        parent.value@.len() == 729,
        child.value@.len() == 729,
    ensures
        forall|m: Map<CubeCoord, u8>| #[trigger] agrees(m, child.value@) ==> agrees(m, parent.value@),
{
    assert forall|m: Map<CubeCoord, u8>| #[trigger] agrees(m, child.value@) implies agrees(m, parent.value@) by {
        assert forall|s: int| 0 <= s < 729 && #[trigger] parent.value@[s] != 0 implies m[coord_at_slot(s)]
            == parent.value@[s] by {
            assert(child.value@[s] == parent.value@[s]);
        }
    }
}

/// Counts the completions of `partial` with the table of related cells `rel` (see
/// `count_solutions`).
pub fn count_solutions_in(rel: &RelatedTable, partial: &DigitMap, limit: usize) -> (r: usize)
    requires
        rel.wf(),
        forall|c: CubeCoord| #[trigger] partial@.dom().contains(c) ==> c.on_surface() && 1 <= partial@[c] <= 9,
    ensures
        limit > 0 ==> r <= limit,
        limit == 0 ==> r <= 1,
        r > 0 ==> solvable(partial@),
        limit > 0 && solvable(partial@) ==> r > 0,
        r >= 2 ==> !at_most_one_completion(partial@),
        limit >= 2 && !at_most_one_completion(partial@) ==> r >= 2,
        limit > 0 ==> r <= limit && counts_completions(partial@, r as nat, limit as nat),
{
    let mut st = Search::new();
    let mut s: usize = 0;
    while s < 729
        invariant
            s <= 729,
            st.wf(),
            rel.wf(),
            forall|c: CubeCoord| #[trigger] partial@.dom().contains(c) ==> c.on_surface() && 1 <= partial@[c] <= 9,
            forall|m: Map<CubeCoord, u8>|
                is_solution(m) && extends(m, partial@) ==> agrees(m, st.value@) && st.keeps(m),
            forall|t: int|
                0 <= t < s && #[trigger] partial@.dom().contains(coord_at_slot(t)) ==> st.value@[t]
                    == partial@[coord_at_slot(t)],
        decreases 729 - s,
    {
        let c = coord_from_slot(s);
        match partial.get(&c) {
            Some(v) => {
                let ghost before = st;
                if !assign_top(&mut st, rel, c, v) {
                    proof {
                        assert forall|m: Map<CubeCoord, u8>| is_solution(m) && extends(m, partial@) implies false by {
                            assert(partial@.dom().contains(c));
                        }
                        assert(lists_completions(Seq::<Map<CubeCoord, u8>>::empty(), partial@));
                    }
                    return 0;
                }
                proof {
                    assert forall|t: int|
                        0 <= t < s + 1 && #[trigger] partial@.dom().contains(coord_at_slot(t)) implies st.value@[t]
                            == partial@[coord_at_slot(t)] by {
                        if t < s {
                            crate::cube::lemma_slot_bijection(coord_at_slot(t), t);
                            assert(before.value@[t] != 0);
                        }
                    }
                    assert forall|m: Map<CubeCoord, u8>|
                        is_solution(m) && extends(m, partial@) implies agrees(m, st.value@) && st.keeps(m) by {
                        assert(partial@.dom().contains(c));
                    }
                }
            },
            None => {},
        }
        s = s + 1;
    }
    let mut count: usize = 0;
    solve_count(&st, rel, limit, &mut count);
    proof {
        if count > 0 {
            let m = choose|m: Map<CubeCoord, u8>| is_solution(m) && agrees(m, st.value@);
            lemma_agrees_extends(st, partial@, m);
        }
        if count >= 2 {
            let (m1, m2) = choose|m1: Map<CubeCoord, u8>, m2: Map<CubeCoord, u8>|
                is_solution(m1) && is_solution(m2) && m1 != m2 && agrees(m1, st.value@) && agrees(m2, st.value@);
            lemma_agrees_extends(st, partial@, m1);
            lemma_agrees_extends(st, partial@, m2);
        }
        let found = choose|found: Seq<Map<CubeCoord, u8>>|
            {
                &&& #[trigger] found_ok(found, st.value@)
                &&& count == 0 + found.len()
                &&& count < limit ==> forall|m: Map<CubeCoord, u8>|
                    is_solution(m) && agrees(m, st.value@) && st.keeps(m) ==> found.contains(m)
            };
        assert forall|i: int| 0 <= i < found.len() implies is_solution(#[trigger] found[i]) && extends(found[i], partial@) by {
            lemma_agrees_extends(st, partial@, found[i]);
        }
        assert(lists_completions(found, partial@));
        if limit >= 2 && !at_most_one_completion(partial@) {
            let (m1, m2) = choose|m1: Map<CubeCoord, u8>, m2: Map<CubeCoord, u8>|
                is_solution(m1) && is_solution(m2) && extends(m1, partial@) && extends(m2, partial@) && m1 != m2;
            assert(two_ways(st, m1, m2));
        }
    }
    count
}

/// A solution that agrees with the search state after the entries of `partial` were
/// assigned extends `partial`.
proof fn lemma_agrees_extends(st: Search, partial: Map<CubeCoord, u8>, m: Map<CubeCoord, u8>)
    requires
        agrees(m, st.value@),
        forall|t: int|
            0 <= t < 729 && #[trigger] partial.dom().contains(coord_at_slot(t)) ==> st.value@[t] == partial[coord_at_slot(t)],
        forall|c: CubeCoord| #[trigger] partial.dom().contains(c) ==> c.on_surface() && 1 <= partial[c] <= 9,
        is_solution(m),
    ensures
        extends(m, partial),
{
    assert forall|c: CubeCoord| #[trigger] partial.dom().contains(c) implies m.dom().contains(c) && m[c] == partial[c] by {
        crate::cube::lemma_slot_bijection(c, 0);
        assert(partial.dom().contains(coord_at_slot(c.slot())));
    }
}

/// The number of completions of the partial assignment `partial` to a solution of the
/// surface, counted up to `limit` (one at most when `limit` is 0): none exactly when
/// `partial` cannot be completed, and otherwise the number of its completions when there
/// are fewer than `limit`, else `limit` (see `counts_completions`).
pub fn count_solutions(partial: &DigitMap, limit: usize) -> (r: usize)
    requires
        forall|c: CubeCoord| #[trigger] partial@.dom().contains(c) ==> c.on_surface() && 1 <= partial@[c] <= 9,
    ensures
        limit > 0 ==> r <= limit,
        limit == 0 ==> r <= 1,
        r > 0 ==> solvable(partial@),
        limit > 0 && solvable(partial@) ==> r > 0,
        r >= 2 ==> !at_most_one_completion(partial@),
        limit >= 2 && !at_most_one_completion(partial@) ==> r >= 2,
        limit > 0 ==> r <= limit && counts_completions(partial@, r as nat, limit as nat),
{
    let rel = RelatedTable::new();
    count_solutions_in(&rel, partial, limit)
}

/// The entries of `solution` at the coordinates of `given`.
pub open spec fn restricted(solution: Map<CubeCoord, u8>, given: Set<CubeCoord>) -> Map<CubeCoord, u8> {
    Map::new(|c: CubeCoord| solution.dom().contains(c) && given.contains(c), |c: CubeCoord| solution[c])
}

/// The partial assignment of the cells in `given`, with their solution values.
fn build_partial_solution(solution: &DigitMap, given: &CoordSet) -> (r: DigitMap)
    ensures
        r@ == restricted(solution@, given@),
{
    let mut r = DigitMap::new();
    let mut s: usize = 0;
    while s < 729
        invariant
            s <= 729,
            forall|c: CubeCoord|
                #[trigger] r@.dom().contains(c) <==> (c.in_box() && c.slot() < s && solution@.dom().contains(c)
                    && given@.contains(c)),
            forall|c: CubeCoord| #[trigger] r@.dom().contains(c) ==> r@[c] == solution@[c],
        decreases 729 - s,
    {
        let c = coord_from_slot(s);
        if given.contains(&c) {
            if let Some(v) = solution.get(&c) {
                r.insert(c, v);
            }
        }
        proof {
            assert forall|d: CubeCoord|
                #[trigger] r@.dom().contains(d) <==> (d.in_box() && d.slot() < s + 1 && solution@.dom().contains(d)
                    && given@.contains(d)) by {
                if d.in_box() && d.slot() == s {
                    crate::cube::lemma_slot_injective(d, c);
                }
            }
        }
        s = s + 1;
    }
    proof {
        assert forall|c: CubeCoord| #[trigger] solution@.dom().contains(c) implies c.in_box() && c.slot() < 729 by {
            crate::digits::lemma_solution_keys_in_box(*solution, c);
            crate::cube::lemma_slot_bijection(c, 0);
        }
        assert(r@ =~= restricted(solution@, given@));
    }
    r
}

/// The given cells of a grid.
pub open spec fn given_cells(grid: Map<CubeCoord, crate::grid::Cell>) -> Set<CubeCoord> {
    Set::new(|c: CubeCoord| grid.dom().contains(c) && grid[c].given)
}

/// Whether `m` assigns digits 1 to 9 to surface cells only.
pub open spec fn surface_digits(m: Map<CubeCoord, u8>) -> bool {
    forall|c: CubeCoord| #[trigger] m.dom().contains(c) ==> c.on_surface() && 1 <= m[c] <= 9
}

/// A puzzle for `solution`: the surface cells are visited in a random order (see
/// `puzzle_in_order`). Every cell of the result holds its solution value as answer, and only
/// the hidden cells are empty. When `solution` is a solution, it is the one completion of
/// the given cells, and either `difficulty.hidden_count()` cells are hidden or no given
/// cell can be hidden without allowing a second completion.
pub fn generate_puzzle(solution: &DigitMap, difficulty: Difficulty, rng: &mut StdRng) -> (r: CubeGrid)
    requires
        surface_digits(solution@),
    ensures
        is_solution(solution@) ==> extends(solution@, restricted(solution@, given_cells(r@))),
        is_solution(solution@) ==> at_most_one_completion(restricted(solution@, given_cells(r@))),
        is_solution(solution@) ==> given_cells(r@).finite() && given_cells(r@).len() + difficulty.spec_hidden_count()
            >= 386,
        r.wf(),
        r@.dom() == solution@.dom(),
        forall|c: CubeCoord|
            #[trigger] r@.dom().contains(c) ==> r@[c].is_fresh(solution@[c], r@[c].given),
        exists|hidden: Seq<CubeCoord>|
            {
                &&& hidden.no_duplicates()
                &&& hidden.len() <= difficulty.spec_hidden_count()
                &&& forall|c: CubeCoord| #[trigger] r@.dom().contains(c) ==> (r@[c].given <==> !hidden.contains(c))
                &&& is_solution(solution@) ==> hidden.len() == difficulty.spec_hidden_count() || forall|c: CubeCoord|
                    #[trigger] given_cells(r@).contains(c) ==> !at_most_one_completion(
                        restricted(solution@, given_cells(r@).remove(c)),
                    )
            },
{
    let mut coords = iter_surface_coords();
    let ghost ordered = coords@;
    shuffle(&mut coords, rng);
    proof {
        lemma_shuffled_same_members(ordered, coords@);
        ordered.lemma_multiset_has_no_duplicates();
        coords@.lemma_multiset_has_no_duplicates_conv();
    }
    puzzle_in_order(solution, &coords, difficulty)
}

/// The puzzle for `solution` made by visiting the surface cells in the order `coords`: each
/// is hidden unless the puzzle would then no longer have exactly one completion (as counted
/// by `count_solutions` up to two); hiding stops once `difficulty.hidden_count()` cells of
/// the 386 are hidden. Every cell of the result holds its solution value as answer, and
/// only the hidden cells are empty. When `solution` is a solution, it is the one completion
/// of the given cells, and either `difficulty.hidden_count()` cells are hidden or no given
/// cell can be hidden without allowing a second completion.
pub fn puzzle_in_order(solution: &DigitMap, coords: &Vec<CubeCoord>, difficulty: Difficulty) -> (r: CubeGrid)
    requires
        surface_digits(solution@),
        coords@.len() == 386,
        coords@.no_duplicates(),
        forall|d: CubeCoord| coords@.contains(d) <==> d.on_surface(),
    ensures
        is_solution(solution@) ==> extends(solution@, restricted(solution@, given_cells(r@))),
        is_solution(solution@) ==> at_most_one_completion(restricted(solution@, given_cells(r@))),
        is_solution(solution@) ==> given_cells(r@).finite() && given_cells(r@).len() + difficulty.spec_hidden_count()
            >= 386,
        r.wf(),
        r@.dom() == solution@.dom(),
        forall|c: CubeCoord|
            #[trigger] r@.dom().contains(c) ==> r@[c].is_fresh(solution@[c], r@[c].given),
        exists|hidden: Seq<CubeCoord>|
            {
                &&& hidden.no_duplicates()
                &&& hidden.len() <= difficulty.spec_hidden_count()
                &&& forall|c: CubeCoord| #[trigger] r@.dom().contains(c) ==> (r@[c].given <==> !hidden.contains(c))
                &&& is_solution(solution@) ==> hidden.len() == difficulty.spec_hidden_count() || forall|c: CubeCoord|
                    #[trigger] given_cells(r@).contains(c) ==> !at_most_one_completion(
                        restricted(solution@, given_cells(r@).remove(c)),
                    )
            },
{
    let mut given = CoordSet::new();
    let mut k: usize = 0;
    while k < coords.len()
        invariant
            k <= coords@.len(),
            forall|d: CubeCoord| coords@.contains(d) <==> d.on_surface(),
            forall|d: CubeCoord| #[trigger] given@.contains(d) <==> (exists|j: int| 0 <= j < k && coords@[j] == d),
        decreases coords@.len() - k,
    {
        let d = coords[k];
        proof {
            assert(coords@[k as int] == d);
            assert(coords@.contains(d));
            assert(d.on_surface());
        }
        given.insert(d);
        proof {
            assert forall|e: CubeCoord| #[trigger] given@.contains(e) <==> (exists|j: int| 0 <= j < k + 1 && coords@[j] == e) by {
                if e == d {
                    assert(coords@[k as int] == e);
                }
            }
        }
        k = k + 1;
    }
    proof {
        assert forall|d: CubeCoord| #[trigger] given@.contains(d) <==> d.on_surface() by {
            if d.on_surface() {
                assert(coords@.contains(d));
                let j = choose|j: int| 0 <= j < coords@.len() && coords@[j] == d;
            }
        }
    }
    proof {
        if is_solution(solution@) {
            lemma_full_puzzle_unique(solution@, given@);
        }
    }
    let mut given_len: usize = coords.len();
    let target = difficulty.hidden_count();
    let rel = RelatedTable::new();
    let ghost mut hidden: Seq<CubeCoord> = Seq::empty();
    let mut i: usize = 0;
    while i < coords.len()
        invariant
            i <= coords@.len(),
            coords@.len() == 386,
            coords@.no_duplicates(),
            forall|d: CubeCoord| coords@.contains(d) <==> d.on_surface(),
            rel.wf(),
            surface_digits(solution@),
            target == difficulty.spec_hidden_count(),
            target <= 280,
            hidden.no_duplicates(),
            hidden.len() + given_len == 386,
            hidden.len() <= target,
            forall|d: CubeCoord| #[trigger] hidden.contains(d) ==> exists|j: int| 0 <= j < i && coords@[j] == d,
            forall|d: CubeCoord| #[trigger] given@.contains(d) <==> (d.on_surface() && !hidden.contains(d)),
            is_solution(solution@) ==> at_most_one_completion(restricted(solution@, given@)),
            is_solution(solution@) ==> forall|d: CubeCoord|
                #[trigger] given@.contains(d) && (exists|j: int| 0 <= j < i && coords@[j] == d)
                    ==> !at_most_one_completion(restricted(solution@, given@.remove(d))),
        ensures
            i >= coords@.len() || given_len <= 386 - target,
        decreases coords@.len() - i,
    {
        if given_len <= 386 - target {
            break;
        }
        let coord = coords[i];
        proof {
            assert(coords@[i as int] == coord);
            assert(coords@.contains(coord));
            assert(coord.on_surface());
            assert(!hidden.contains(coord)) by {
                if hidden.contains(coord) {
                    let j = choose|j: int| 0 <= j < i && coords@[j] == coord;
                    assert(coords@[j] == coords@[i as int]);
                    assert(false);
                }
            }
        }
        let ghost old_hidden = hidden;
        let ghost old_given = given@;
        given.remove(&coord);
        let puzzle = build_partial_solution(solution, &given);
        proof {
            assert forall|c: CubeCoord| #[trigger] puzzle@.dom().contains(c) implies c.on_surface() && 1 <= puzzle@[c]
                <= 9 by {
                assert(solution@.dom().contains(c));
            }
        }
        let ghost before_given = old_given;
        let n_sol = count_solutions_in(&rel, &puzzle, 2);
        if n_sol != 1 {
            given.insert(coord);
            proof {
                assert(given@ =~= before_given);
                if is_solution(solution@) {
                    assert(given@.remove(coord) =~= before_given.remove(coord));
                    assert(extends(solution@, puzzle@));
                    assert forall|d: CubeCoord|
                        #[trigger] given@.contains(d) && (exists|j: int| 0 <= j < i + 1 && coords@[j] == d)
                            implies !at_most_one_completion(restricted(solution@, given@.remove(d))) by {
                        if d != coord {
                            let j = choose|j: int| 0 <= j < i + 1 && coords@[j] == d;
                            assert(j != i);
                        }
                    }
                }
            }
        } else {
            proof {
                let h2 = hidden.push(coord);
                assert forall|a: int, b: int| 0 <= a < h2.len() && 0 <= b < h2.len() && a != b implies h2[a] != h2[b] by {
                    if a == hidden.len() as int {
                        assert(h2[a] == coord);
                        assert(h2[b] == hidden[b]);
                        assert(hidden.contains(hidden[b]));
                    } else if b == hidden.len() as int {
                        assert(hidden[a] == h2[a]);
                        assert(hidden.contains(hidden[a]));
                    }
                }
                assert forall|d: CubeCoord| #[trigger] h2.contains(d) implies exists|j: int| 0 <= j < i + 1 && coords@[j] == d by {
                    if d == coord {
                        assert(coords@[i as int] == d);
                    } else {
                        let t = choose|t: int| 0 <= t < h2.len() && h2[t] == d;
                        assert(hidden[t] == d);
                        assert(hidden.contains(d));
                    }
                }
                hidden = h2;
            }
            given_len = given_len - 1;
            proof {
                if is_solution(solution@) {
                    assert forall|d: CubeCoord|
                        #[trigger] given@.contains(d) && (exists|j: int| 0 <= j < i + 1 && coords@[j] == d)
                            implies !at_most_one_completion(restricted(solution@, given@.remove(d))) by {
                        let j = choose|j: int| 0 <= j < i + 1 && coords@[j] == d;
                        assert(d != coord);
                        assert(j != i);
                        assert(before_given.contains(d));
                        lemma_fewer_givens(solution@, given@.remove(d), before_given.remove(d));
                    }
                }
            }
        }
        proof {
            assert forall|d: CubeCoord| #[trigger] given@.contains(d) <==> (d.on_surface() && !hidden.contains(d)) by {
                crate::cube::lemma_push_contains(old_hidden, coord, d);
            }
        }
        i = i + 1;
    }
    let r = CubeGrid::from_solution(*solution, &given);
    proof {
        assert forall|c: CubeCoord| #[trigger] r@.dom().contains(c) implies (r@[c].given <==> !hidden.contains(c)) by {
            assert(solution@.dom().contains(c));
            assert(c.on_surface());
        }
        assert(restricted(solution@, given_cells(r@)) =~= restricted(solution@, given@)) by {
            assert forall|c: CubeCoord| #[trigger] solution@.dom().contains(c) implies (given_cells(r@).contains(c)
                <==> given@.contains(c)) by {
                assert(r@.dom().contains(c));
            }
        }
        if is_solution(solution@) {
            assert(given_cells(r@) =~= given@) by {
                assert forall|c: CubeCoord| given@.contains(c) implies #[trigger] given_cells(r@).contains(c) by {
                    assert(solution@.dom().contains(c));
                    assert(r@.dom().contains(c));
                }
                assert forall|c: CubeCoord| #[trigger] given_cells(r@).contains(c) implies given@.contains(c) by {
                    assert(solution@.dom().contains(c));
                }
            }
            let sset = coords@.to_set();
            let hset = hidden.to_set();
            assert(given@ =~= sset.difference(hset)) by {
                assert forall|d: CubeCoord| given@.contains(d) <==> sset.difference(hset).contains(d) by {
                    if d.on_surface() {
                        assert(coords@.contains(d));
                    }
                }
            }
            coords@.unique_seq_to_set();
            hidden.unique_seq_to_set();
            vstd::set_lib::lemma_set_difference_len(sset, hset);
            vstd::set_lib::lemma_len_intersect(hset, sset);
            assert(sset.intersect(hset) =~= hset.intersect(sset));
            if !(given_len <= 386 - target) {
                assert forall|c: CubeCoord| #[trigger] given_cells(r@).contains(c) implies !at_most_one_completion(
                    restricted(solution@, given_cells(r@).remove(c)),
                ) by {
                    assert(given@.contains(c));
                    assert(c.on_surface());
                    assert(coords@.contains(c));
                    let j = choose|j: int| 0 <= j < coords@.len() && coords@[j] == c;
                    assert(exists|j: int| 0 <= j < i && coords@[j] == c);
                }
            }
        }
    }
    r
}

/// Fewer given cells leave at least the completions that more given cells allow.
proof fn lemma_fewer_givens(solution: Map<CubeCoord, u8>, g1: Set<CubeCoord>, g2: Set<CubeCoord>)
    requires
        g1.subset_of(g2),
        !at_most_one_completion(restricted(solution, g2)),
    ensures
        !at_most_one_completion(restricted(solution, g1)),
{
    let p2 = restricted(solution, g2);
    let p1 = restricted(solution, g1);
    let (m1, m2) = choose|m1: Map<CubeCoord, u8>, m2: Map<CubeCoord, u8>|
        is_solution(m1) && is_solution(m2) && extends(m1, p2) && extends(m2, p2) && m1 != m2;
    assert(extends(m1, p1) && extends(m2, p1)) by {
        assert forall|c: CubeCoord| #[trigger] p1.dom().contains(c) implies p2.dom().contains(c) by {}
    }
}

/// With every surface cell given, a solution is the one completion of the puzzle.
proof fn lemma_full_puzzle_unique(solution: Map<CubeCoord, u8>, given: Set<CubeCoord>)
    requires
        is_solution(solution),
        forall|d: CubeCoord| #[trigger] given.contains(d) <==> d.on_surface(),
    ensures
        at_most_one_completion(restricted(solution, given)),
{
    let p = restricted(solution, given);
    assert forall|m1: Map<CubeCoord, u8>, m2: Map<CubeCoord, u8>|
        #![trigger extends(m1, p), extends(m2, p)]
        is_solution(m1) && is_solution(m2) && extends(m1, p) && extends(m2, p) implies m1 == m2 by {
        assert forall|c: CubeCoord| #[trigger] m1.dom().contains(c) implies m2.dom().contains(c) && m1[c] == m2[c] by {
            assert(solution.dom().contains(c));
            assert(p.dom().contains(c));
        }
        assert forall|c: CubeCoord| #[trigger] m2.dom().contains(c) implies m1.dom().contains(c) by {
            assert(solution.dom().contains(c));
        }
        assert(m1 =~= m2);
    }
}

} // verus!
