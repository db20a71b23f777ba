//! Maps and sets over the coordinates of the 9×9×9 box, stored densely by slot.

use vstd::prelude::*;

use crate::cube::{coord_from_slot, slot_of, CubeCoord};

verus! {

/// The value `m` gives `c`, if any.
pub open spec fn lookup(m: Map<CubeCoord, u8>, c: CubeCoord) -> Option<u8> {
    if m.dom().contains(c) {
        Some(m[c])
    } else {
        None
    }
}

/// A map from in-box coordinates to digits (a full or partial assignment of the cube).
#[derive(Clone, Copy)]
pub struct DigitMap {
    slots: [Option<u8>; 729],
}

impl DigitMap {
    /// The entries of the map.
    pub closed spec fn view(&self) -> Map<CubeCoord, u8> {
        Map::new(
            |c: CubeCoord| c.in_box() && self.slots@[c.slot()] is Some,
            |c: CubeCoord| self.slots@[c.slot()]->0,
        )
    }

    /// An empty map.
    pub fn new() -> (r: Self)
        ensures
            r@ == Map::<CubeCoord, u8>::empty(),
    {
        let slots: [Option<u8>; 729] = vstd::array::array_fill_for_copy_types(None);
        let r = DigitMap { slots };
        assert(r@ =~= Map::<CubeCoord, u8>::empty());
        r
    }

    /// The value stored for `c`.
    pub fn get(&self, c: &CubeCoord) -> (r: Option<u8>)
        ensures
            r == lookup(self@, *c),
    {
        if c.x < 9 && c.y < 9 && c.z < 9 {
            self.slots[slot_of(*c)]
        } else {
            None
        }
    }

    /// Whether `c` has a value.
    pub fn contains_key(&self, c: &CubeCoord) -> (r: bool)
        ensures
            r == self@.dom().contains(*c),
    {
        self.get(c).is_some()
    }

    /// Stores `v` for the in-box coordinate `c`.
    pub fn insert(&mut self, c: CubeCoord, v: u8)
        requires
            c.in_box(),
        ensures
            final(self)@ == old(self)@.insert(c, v),
    {
        let i = slot_of(c);
        self.slots[i] = Some(v);
        proof {
            assert forall|d: CubeCoord| d.in_box() && d.slot() == c.slot() implies d == c by {
                crate::cube::lemma_slot_injective(d, c);
            }
        }
        assert(self@ =~= old(self)@.insert(c, v));
    }

    /// Removes the value of `c`, if any.
    pub fn remove(&mut self, c: &CubeCoord)
        ensures
            final(self)@ == old(self)@.remove(*c),
    {
        if c.x < 9 && c.y < 9 && c.z < 9 {
            let i = slot_of(*c);
            self.slots[i] = None;
            proof {
                assert forall|d: CubeCoord| d.in_box() && d.slot() == c.slot() implies d == *c by {
                    crate::cube::lemma_slot_injective(d, *c);
                }
            }
        }
        assert(self@ =~= old(self)@.remove(*c));
    }

}

impl DigitMap {
    /// The coordinates that have a value.
    pub fn key_set(&self) -> (r: CoordSet)
        ensures
            r@ == self@.dom(),
    {
        let mut r = CoordSet::new();
        let mut i: usize = 0;
        while i < 729
            invariant
                i <= 729,
                forall|c: CubeCoord| #[trigger] r@.contains(c) <==> (self@.dom().contains(c) && c.slot() < i),
            decreases 729 - i,
        {
            let c = coord_from_slot(i);
            let ghost before = r@;
            if self.slots[i].is_some() {
                r.insert(c);
            }
            proof {
                assert forall|d: CubeCoord| #[trigger] r@.contains(d) <==> (self@.dom().contains(d) && d.slot() < i + 1) by {
                    if d.in_box() && d.slot() == i {
                        crate::cube::lemma_slot_injective(d, c);
                    }
                }
            }
            i = i + 1;
        }
        assert(r@ =~= self@.dom());
        r
    }
}

/// The keys of a digit map are in-box coordinates, and a key's value sits in its slot.
pub proof fn lemma_solution_keys_in_box(m: DigitMap, c: CubeCoord)
    ensures
        m@.dom().contains(c) ==> c.in_box(),
        c.in_box() ==> lookup(m@, c) == m.slot_value(c.slot()),
{
}

impl DigitMap {
    /// The raw content of a slot.
    pub closed spec fn slot_value(&self, i: int) -> Option<u8> {
        self.slots@[i]
    }
}

/// A set of in-box coordinates.
#[derive(Clone, Copy)]
pub struct CoordSet {
    slots: [bool; 729],
}

impl CoordSet {
    /// The members of the set.
    pub closed spec fn view(&self) -> Set<CubeCoord> {
        Set::new(|c: CubeCoord| c.in_box() && self.slots@[c.slot()])
    }

    /// An empty set.
    pub fn new() -> (r: Self)
        ensures
            r@ == Set::<CubeCoord>::empty(),
    {
        let slots: [bool; 729] = vstd::array::array_fill_for_copy_types(false);
        let r = CoordSet { slots };
        assert(r@ =~= Set::<CubeCoord>::empty());
        r
    }

    /// Whether `c` is a member.
    pub fn contains(&self, c: &CubeCoord) -> (r: bool)
        ensures
            r == self@.contains(*c),
    {
        if c.x < 9 && c.y < 9 && c.z < 9 {
            self.slots[slot_of(*c)]
        } else {
            false
        }
    }

    /// Adds the in-box coordinate `c`.
    pub fn insert(&mut self, c: CubeCoord)
        requires
            c.in_box(),
        ensures
            final(self)@ == old(self)@.insert(c),
    {
        let i = slot_of(c);
        self.slots[i] = true;
        proof {
            assert forall|d: CubeCoord| d.in_box() && d.slot() == c.slot() implies d == c by {
                crate::cube::lemma_slot_injective(d, c);
            }
        }
        assert(self@ =~= old(self)@.insert(c));
    }

    /// Removes `c`.
    pub fn remove(&mut self, c: &CubeCoord)
        ensures
            final(self)@ == old(self)@.remove(*c),
    {
        if c.x < 9 && c.y < 9 && c.z < 9 {
            let i = slot_of(*c);
            self.slots[i] = false;
            proof {
                assert forall|d: CubeCoord| d.in_box() && d.slot() == c.slot() implies d == *c by {
                    crate::cube::lemma_slot_injective(d, *c);
                }
            }
        }
        assert(self@ =~= old(self)@.remove(*c));
    }
}

} // verus!
