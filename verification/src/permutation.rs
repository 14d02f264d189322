//! Cube states as elements of a finite group.
//!
//! A [`Permutation`] records, for each of the eight corner slots and twelve
//! edge slots, which piece sits there and how it is twisted or flipped.
//! Composition, inversion and exponentiation make the well-formed values a
//! group; the laws are proved at the end of this file.

use std::ops::{Add, Mul, Neg};
use crate::table::{
    group_table_index, lemma_each12, lemma_each8, lemma_placement_onto, slot_of, table12, table8,
};
use vstd::prelude::*;

verus! {

broadcast use group_table_index;

/// The eight corner slots, in table order.
#[derive(Clone, Copy, Debug, Eq, Hash, PartialEq, Structural)]
pub enum CornerLoc {
    UFR,
    UFL,
    UBL,
    UBR,
    DFR,
    DFL,
    DBL,
    DBR,
}

impl CornerLoc {
    /// Position of this slot in the corner tables.
    pub open spec fn position(self) -> int {
        match self {
            CornerLoc::UFR => 0,
            CornerLoc::UFL => 1,
            CornerLoc::UBL => 2,
            CornerLoc::UBR => 3,
            CornerLoc::DFR => 4,
            CornerLoc::DFL => 5,
            CornerLoc::DBL => 6,
            CornerLoc::DBR => 7,
        }
    }

    /// Half-turn class of the corner slot at table position `n`: the slots
    /// that half turns alone can exchange share a class.
    pub open spec fn class_of(n: int) -> int {
        if n == 0 || n == 2 || n == 5 || n == 7 {
            0
        } else {
            1
        }
    }

    /// Position of this slot in the corner tables.
    pub fn index(self) -> (n: usize)
        ensures
            n == self.position(),
            n < 8,
    {
        match self {
            CornerLoc::UFR => 0,
            CornerLoc::UFL => 1,
            CornerLoc::UBL => 2,
            CornerLoc::UBR => 3,
            CornerLoc::DFR => 4,
            CornerLoc::DFL => 5,
            CornerLoc::DBL => 6,
            CornerLoc::DBR => 7,
        }
    }

    /// The slot at table position `n`; an error when there is none.
    pub fn from_usize(n: usize) -> (res: Result<CornerLoc, &'static str>)
        ensures
            n < 8 <==> res is Ok,
            res matches Ok(loc) ==> loc.position() == n,
            res matches Err(msg) ==> msg@ == "Nonexistent corner index"@,
    {
        match n {
            0 => Ok(CornerLoc::UFR),
            1 => Ok(CornerLoc::UFL),
            2 => Ok(CornerLoc::UBL),
            3 => Ok(CornerLoc::UBR),
            4 => Ok(CornerLoc::DFR),
            5 => Ok(CornerLoc::DFL),
            6 => Ok(CornerLoc::DBL),
            7 => Ok(CornerLoc::DBR),
            _ => Err("Nonexistent corner index"),
        }
    }

    /// Half-turn class of this slot.
    pub fn ht_class(self) -> (class: usize)
        ensures
            class == Self::class_of(self.position()),
    {
        match self {
            CornerLoc::UFR => 0,
            CornerLoc::UFL => 1,
            CornerLoc::UBL => 0,
            CornerLoc::UBR => 1,
            CornerLoc::DFR => 1,
            CornerLoc::DFL => 0,
            CornerLoc::DBL => 1,
            CornerLoc::DBR => 0,
        }
    }
}

/// The twelve edge slots, in table order.
#[derive(Clone, Copy, Debug, Eq, Hash, PartialEq, Structural)]
pub enum EdgeLoc {
    UR,
    UF,
    UL,
    UB,
    BR,
    FR,
    FL,
    BL,
    DR,
    DF,
    DL,
    DB,
}

impl EdgeLoc {
    /// Position of this slot in the edge tables.
    pub open spec fn position(self) -> int {
        match self {
            EdgeLoc::UR => 0,
            EdgeLoc::UF => 1,
            EdgeLoc::UL => 2,
            EdgeLoc::UB => 3,
            EdgeLoc::BR => 4,
            EdgeLoc::FR => 5,
            EdgeLoc::FL => 6,
            EdgeLoc::BL => 7,
            EdgeLoc::DR => 8,
            EdgeLoc::DF => 9,
            EdgeLoc::DL => 10,
            EdgeLoc::DB => 11,
        }
    }

    /// The belt is the middle layer: the four edge slots that touch neither
    /// the U nor the D face.
    pub open spec fn is_belt(n: int) -> bool {
        4 <= n < 8
    }

    /// Half-turn class of the edge slot at table position `n`: the belt is
    /// one class, and the U and D layers split into two by parity.
    pub open spec fn class_of(n: int) -> int {
        if Self::is_belt(n) {
            2
        } else {
            n % 2
        }
    }

    /// Position of this slot in the edge tables.
    pub fn index(self) -> (n: usize)
        ensures
            n == self.position(),
            n < 12,
    {
        match self {
            EdgeLoc::UR => 0,
            EdgeLoc::UF => 1,
            EdgeLoc::UL => 2,
            EdgeLoc::UB => 3,
            EdgeLoc::BR => 4,
            EdgeLoc::FR => 5,
            EdgeLoc::FL => 6,
            EdgeLoc::BL => 7,
            EdgeLoc::DR => 8,
            EdgeLoc::DF => 9,
            EdgeLoc::DL => 10,
            EdgeLoc::DB => 11,
        }
    }

    /// The slot at table position `n`; an error when there is none.
    pub fn from_usize(n: usize) -> (res: Result<EdgeLoc, &'static str>)
        ensures
            n < 12 <==> res is Ok,
            res matches Ok(loc) ==> loc.position() == n,
            res matches Err(msg) ==> msg@ == "Nonexistent edge index"@,
    {
        match n {
            0 => Ok(EdgeLoc::UR),
            1 => Ok(EdgeLoc::UF),
            2 => Ok(EdgeLoc::UL),
            3 => Ok(EdgeLoc::UB),
            4 => Ok(EdgeLoc::BR),
            5 => Ok(EdgeLoc::FR),
            6 => Ok(EdgeLoc::FL),
            7 => Ok(EdgeLoc::BL),
            8 => Ok(EdgeLoc::DR),
            9 => Ok(EdgeLoc::DF),
            10 => Ok(EdgeLoc::DL),
            11 => Ok(EdgeLoc::DB),
            _ => Err("Nonexistent edge index"),
        }
    }

    /// Half-turn class of this slot.
    pub fn ht_class(self) -> (class: usize)
        ensures
            class == Self::class_of(self.position()),
    {
        match self {
            EdgeLoc::UR => 0,
            EdgeLoc::UF => 1,
            EdgeLoc::UL => 0,
            EdgeLoc::UB => 1,
            EdgeLoc::BR => 2,
            EdgeLoc::FR => 2,
            EdgeLoc::FL => 2,
            EdgeLoc::BL => 2,
            EdgeLoc::DR => 0,
            EdgeLoc::DF => 1,
            EdgeLoc::DL => 0,
            EdgeLoc::DB => 1,
        }
    }
}

/// The twist that undoes a corner twist of `o` thirds of a turn.
pub open spec fn twist_inverse(o: usize) -> usize {
    ((3 - o) % 3) as usize
}

/// A cube state, and at the same time the effect of a sequence of turns:
/// `cp[i]` is the home slot of the corner now in slot `i`, `co[i]` its
/// clockwise twist; `ep` and `eo` say the same of the edges.
#[derive(Clone, Copy, Debug)]
pub struct Permutation {
    pub co: [usize; 8],
    pub eo: [usize; 12],
    pub cp: [usize; 8],
    pub ep: [usize; 12],
}

impl Permutation {
    /// Every entry names a slot or an orientation that exists.
    pub open spec fn in_range(self) -> bool {
        &&& forall|i: int| 0 <= i < 8 ==> #[trigger] self.cp[i] < 8
        &&& forall|i: int| 0 <= i < 8 ==> #[trigger] self.co[i] < 3
        &&& forall|i: int| 0 <= i < 12 ==> #[trigger] self.ep[i] < 12
        &&& forall|i: int| 0 <= i < 12 ==> #[trigger] self.eo[i] < 2
    }

    /// The invariant of a cube state: both placements are bijections of
    /// their slots, twists are below 3 and flips below 2.
    pub open spec fn wf(self) -> bool {
        &&& self.in_range()
        &&& self.cp@.no_duplicates()
        &&& self.ep@.no_duplicates()
    }

    /// `self ∘ other`: the state reached by applying `other` first and
    /// `self` after it.
    pub open spec fn compose(self, other: Permutation) -> Permutation {
        Permutation {
            cp: table8(|i: int| self.cp[other.cp[i] as int]),
            co: table8(|i: int| ((self.co[other.cp[i] as int] + other.co[i]) % 3) as usize),
            ep: table12(|i: int| self.ep[other.ep[i] as int]),
            eo: table12(|i: int| ((self.eo[other.ep[i] as int] + other.eo[i]) % 2) as usize),
        }
    }

    /// The state that undoes `self`: placements are inverted as functions,
    /// corner twists reverse, edge flips stay.
    pub open spec fn inverse(self) -> Permutation {
        Permutation {
            cp: table8(|j: int| slot_of(self.cp@, j) as usize),
            co: table8(|j: int| twist_inverse(self.co[slot_of(self.cp@, j)])),
            ep: table12(|j: int| slot_of(self.ep@, j) as usize),
            eo: table12(|j: int| self.eo[slot_of(self.ep@, j)]),
        }
    }

    /// `self` composed with itself `n` times.
    pub open spec fn repeat(self, n: nat) -> Permutation
        decreases n,
    {
        if n == 0 {
            Self::id()
        } else {
            self.repeat((n - 1) as nat).compose(self)
        }
    }

    /// `self` to the power `n`; a negative power is the inverse of the
    /// positive one.
    pub open spec fn pow(self, n: int) -> Permutation {
        if n < 0 {
            self.repeat((-n) as nat).inverse()
        } else {
            self.repeat(n as nat)
        }
    }

    /// Every piece at home and untwisted.
    pub open spec fn spec_id() -> Permutation {
        Permutation {
            cp: table8(|i: int| i as usize),
            co: table8(|i: int| 0usize),
            ep: table12(|i: int| i as usize),
            eo: table12(|i: int| 0usize),
        }
    }

    /// The table of a clockwise quarter turn of the U face.
    pub open spec fn spec_u() -> Permutation {
        Permutation {
            co: [0, 0, 0, 0, 0, 0, 0, 0],
            cp: [3, 0, 1, 2, 4, 5, 6, 7],
            eo: [0, 0, 0, 0, 0, 0, 0, 0, 0, 0, 0, 0],
            ep: [3, 0, 1, 2, 4, 5, 6, 7, 8, 9, 10, 11],
        }
    }

    /// The table of a clockwise quarter turn of the D face.
    pub open spec fn spec_d() -> Permutation {
        Permutation {
            co: [0, 0, 0, 0, 0, 0, 0, 0],
            cp: [0, 1, 2, 3, 5, 6, 7, 4],
            eo: [0, 0, 0, 0, 0, 0, 0, 0, 0, 0, 0, 0],
            ep: [0, 1, 2, 3, 4, 5, 6, 7, 9, 10, 11, 8],
        }
    }

    /// The table of a clockwise quarter turn of the L face.
    pub open spec fn spec_l() -> Permutation {
        Permutation {
            co: [0, 1, 2, 0, 0, 2, 1, 0],
            cp: [0, 2, 6, 3, 4, 1, 5, 7],
            eo: [0, 0, 0, 0, 0, 0, 0, 0, 0, 0, 0, 0],
            ep: [0, 1, 7, 3, 4, 5, 2, 10, 8, 9, 6, 11],
        }
    }

    /// The table of a clockwise quarter turn of the R face.
    pub open spec fn spec_r() -> Permutation {
        Permutation {
            co: [2, 0, 0, 1, 1, 0, 0, 2],
            cp: [4, 1, 2, 0, 7, 5, 6, 3],
            eo: [0, 0, 0, 0, 0, 0, 0, 0, 0, 0, 0, 0],
            ep: [5, 1, 2, 3, 0, 8, 6, 7, 4, 9, 10, 11],
        }
    }

    /// The table of a clockwise quarter turn of the F face.
    pub open spec fn spec_f() -> Permutation {
        Permutation {
            co: [1, 2, 0, 0, 2, 1, 0, 0],
            cp: [1, 5, 2, 3, 0, 4, 6, 7],
            eo: [0, 1, 0, 0, 0, 1, 1, 0, 0, 1, 0, 0],
            ep: [0, 6, 2, 3, 4, 1, 9, 7, 8, 5, 10, 11],
        }
    }

    /// The table of a clockwise quarter turn of the B face.
    pub open spec fn spec_b() -> Permutation {
        Permutation {
            co: [0, 0, 1, 2, 0, 0, 2, 1],
            cp: [0, 1, 3, 7, 4, 5, 2, 6],
            eo: [0, 0, 0, 1, 1, 0, 0, 1, 0, 0, 0, 1],
            ep: [0, 1, 2, 4, 11, 5, 6, 3, 8, 9, 10, 7],
        }
    }

    /// The solved cube, and the neutral element of composition.
    #[verifier::when_used_as_spec(spec_id)]
    pub fn id() -> (res: Permutation)
        ensures
            res == Self::spec_id(),
            res.wf(),
    {
        let res = Permutation {
            co: [0, 0, 0, 0, 0, 0, 0, 0],
            cp: [0, 1, 2, 3, 4, 5, 6, 7],
            eo: [0, 0, 0, 0, 0, 0, 0, 0, 0, 0, 0, 0],
            ep: [0, 1, 2, 3, 4, 5, 6, 7, 8, 9, 10, 11],
        };
        proof {
            assert(res.cp =~= Self::spec_id().cp);
            assert(res.co =~= Self::spec_id().co);
            assert(res.ep =~= Self::spec_id().ep);
            assert(res.eo =~= Self::spec_id().eo);
        }
        res
    }

    /// A clockwise quarter turn of the U face.
    #[verifier::when_used_as_spec(spec_u)]
    pub fn u() -> (res: Permutation)
        ensures
            res == Self::spec_u(),
            res.wf(),
    {
        Permutation {
            co: [0, 0, 0, 0, 0, 0, 0, 0],
            cp: [3, 0, 1, 2, 4, 5, 6, 7],
            eo: [0, 0, 0, 0, 0, 0, 0, 0, 0, 0, 0, 0],
            ep: [3, 0, 1, 2, 4, 5, 6, 7, 8, 9, 10, 11],
        }
    }

    /// A clockwise quarter turn of the D face.
    #[verifier::when_used_as_spec(spec_d)]
    pub fn d() -> (res: Permutation)
        ensures
            res == Self::spec_d(),
            res.wf(),
    {
        Permutation {
            co: [0, 0, 0, 0, 0, 0, 0, 0],
            cp: [0, 1, 2, 3, 5, 6, 7, 4],
            eo: [0, 0, 0, 0, 0, 0, 0, 0, 0, 0, 0, 0],
            ep: [0, 1, 2, 3, 4, 5, 6, 7, 9, 10, 11, 8],
        }
    }

    /// A clockwise quarter turn of the L face.
    #[verifier::when_used_as_spec(spec_l)]
    pub fn l() -> (res: Permutation)
        ensures
            res == Self::spec_l(),
            res.wf(),
    {
        Permutation {
            co: [0, 1, 2, 0, 0, 2, 1, 0],
            cp: [0, 2, 6, 3, 4, 1, 5, 7],
            eo: [0, 0, 0, 0, 0, 0, 0, 0, 0, 0, 0, 0],
            ep: [0, 1, 7, 3, 4, 5, 2, 10, 8, 9, 6, 11],
        }
    }

    /// A clockwise quarter turn of the R face.
    #[verifier::when_used_as_spec(spec_r)]
    pub fn r() -> (res: Permutation)
        ensures
            res == Self::spec_r(),
            res.wf(),
    {
        Permutation {
            co: [2, 0, 0, 1, 1, 0, 0, 2],
            cp: [4, 1, 2, 0, 7, 5, 6, 3],
            eo: [0, 0, 0, 0, 0, 0, 0, 0, 0, 0, 0, 0],
            ep: [5, 1, 2, 3, 0, 8, 6, 7, 4, 9, 10, 11],
        }
    }

    /// A clockwise quarter turn of the F face.
    #[verifier::when_used_as_spec(spec_f)]
    pub fn f() -> (res: Permutation)
        ensures
            res == Self::spec_f(),
            res.wf(),
    {
        Permutation {
            co: [1, 2, 0, 0, 2, 1, 0, 0],
            cp: [1, 5, 2, 3, 0, 4, 6, 7],
            eo: [0, 1, 0, 0, 0, 1, 1, 0, 0, 1, 0, 0],
            ep: [0, 6, 2, 3, 4, 1, 9, 7, 8, 5, 10, 11],
        }
    }

    /// A clockwise quarter turn of the B face.
    #[verifier::when_used_as_spec(spec_b)]
    pub fn b() -> (res: Permutation)
        ensures
            res == Self::spec_b(),
            res.wf(),
    {
        Permutation {
            co: [0, 0, 1, 2, 0, 0, 2, 1],
            cp: [0, 1, 3, 7, 4, 5, 2, 6],
            eo: [0, 0, 0, 1, 1, 0, 0, 1, 0, 0, 0, 1],
            ep: [0, 1, 2, 4, 11, 5, 6, 3, 8, 9, 10, 7],
        }
    }

    /// The state with the given tables, if they meet the invariant of a
    /// cube state.
    pub fn new(co: [usize; 8], eo: [usize; 12], cp: [usize; 8], ep: [usize; 12]) -> (res: Option<
        Permutation,
    >)
        ensures
            res is Some <==> (Permutation { co, eo, cp, ep }).wf(),
            res matches Some(state) ==> state == (Permutation { co, eo, cp, ep }),
    {
        let state = Permutation { co, eo, cp, ep };
        if state.is_wf() {
            Some(state)
        } else {
            None
        }
    }

    /// Checks the invariant of a cube state.
    pub fn is_wf(&self) -> (res: bool)
        ensures
            res == self.wf(),
    {
        let mut corners: [bool; 8] = [false; 8];
        for i in 0..8
            invariant
                forall|k: int| 0 <= k < i ==> #[trigger] self.cp[k] < 8,
                forall|k: int| 0 <= k < i ==> #[trigger] self.co[k] < 3,
                forall|k: int, j: int| 0 <= k < j < i ==> self.cp[k] != self.cp[j],
                forall|p: int|
                    0 <= p < 8 ==> (#[trigger] corners[p] <==> exists|k: int|
                        0 <= k < i && self.cp[k] == p),
        {
            if self.cp[i] >= 8 || self.co[i] >= 3 || corners[self.cp[i]] {
                proof {
                    if self.cp[i as int] < 8 && self.co[i as int] < 3 {
                        let k = choose|k: int| 0 <= k < i && self.cp[k] == self.cp[i as int];
                        assert(self.cp@[k] == self.cp@[i as int]);
                    }
                }
                return false;
            }
            corners[self.cp[i]] = true;
        }
        let mut edges: [bool; 12] = [false; 12];
        for i in 0..12
            invariant
                forall|k: int| 0 <= k < 8 ==> #[trigger] self.cp[k] < 8,
                forall|k: int| 0 <= k < 8 ==> #[trigger] self.co[k] < 3,
                forall|k: int, j: int| 0 <= k < j < 8 ==> self.cp[k] != self.cp[j],
                forall|k: int| 0 <= k < i ==> #[trigger] self.ep[k] < 12,
                forall|k: int| 0 <= k < i ==> #[trigger] self.eo[k] < 2,
                forall|k: int, j: int| 0 <= k < j < i ==> self.ep[k] != self.ep[j],
                forall|p: int|
                    0 <= p < 12 ==> (#[trigger] edges[p] <==> exists|k: int|
                        0 <= k < i && self.ep[k] == p),
        {
            if self.ep[i] >= 12 || self.eo[i] >= 2 || edges[self.ep[i]] {
                proof {
                    if self.ep[i as int] < 12 && self.eo[i as int] < 2 {
                        let k = choose|k: int| 0 <= k < i && self.ep[k] == self.ep[i as int];
                        assert(self.ep@[k] == self.ep@[i as int]);
                    }
                }
                return false;
            }
            edges[self.ep[i]] = true;
        }
        proof {
            assert forall|k: int, j: int| 0 <= k < 8 && 0 <= j < 8 && k != j implies self.cp@[k]
                != self.cp@[j] by {
                if k < j {
                    assert(self.cp[k] != self.cp[j]);
                } else {
                    assert(self.cp[j] != self.cp[k]);
                }
            }
            assert forall|k: int, j: int|
                0 <= k < 12 && 0 <= j < 12 && k != j implies self.ep@[k] != self.ep@[j] by {
                if k < j {
                    assert(self.ep[k] != self.ep[j]);
                } else {
                    assert(self.ep[j] != self.ep[k]);
                }
            }
        }
        true
    }

    /// Twist and home slot of the corner in slot `i`; an error when the
    /// entry names no slot.
    pub fn corner_op(&self, i: CornerLoc) -> (res: Result<(usize, CornerLoc), &'static str>)
        ensures
            self.cp[i.position()] < 8 <==> res is Ok,
            res matches Ok((twist, home)) ==> twist == self.co[i.position()] && home.position()
                == self.cp[i.position()],
            res matches Err(msg) ==> msg@ == "Nonexistent corner index"@,
    {
        let n = i.index();
        match CornerLoc::from_usize(self.cp[n]) {
            Ok(home) => Ok((self.co[n], home)),
            Err(msg) => Err(msg),
        }
    }

    /// Flip and home slot of the edge in slot `i`; an error when the entry
    /// names no slot.
    pub fn edge_op(&self, i: EdgeLoc) -> (res: Result<(usize, EdgeLoc), &'static str>)
        ensures
            self.ep[i.position()] < 12 <==> res is Ok,
            res matches Ok((flip, home)) ==> flip == self.eo[i.position()] && home.position()
                == self.ep[i.position()],
            res matches Err(msg) ==> msg@ == "Nonexistent edge index"@,
    {
        let n = i.index();
        match EdgeLoc::from_usize(self.ep[n]) {
            Ok(home) => Ok((self.eo[n], home)),
            Err(msg) => Err(msg),
        }
    }
}

impl vstd::std_specs::cmp::PartialEqSpecImpl for Permutation {
    open spec fn obeys_eq_spec() -> bool {
        true
    }

    open spec fn eq_spec(&self, other: &Permutation) -> bool {
        *self == *other
    }
}

impl PartialEq for Permutation {
    /// Two states are equal when all four tables agree.
    fn eq(&self, other: &Permutation) -> (res: bool) {
        let mut same = true;
        for i in 0..8
            invariant
                same <==> forall|k: int|
                    0 <= k < i ==> self.cp[k] == other.cp[k] && self.co[k] == other.co[k],
        {
            if self.cp[i] != other.cp[i] || self.co[i] != other.co[i] {
                same = false;
            }
        }
        for i in 0..12
            invariant
                same <==> (forall|k: int|
                    0 <= k < 8 ==> self.cp[k] == other.cp[k] && self.co[k] == other.co[k])
                    && (forall|k: int|
                    0 <= k < i ==> self.ep[k] == other.ep[k] && self.eo[k] == other.eo[k]),
        {
            if self.ep[i] != other.ep[i] || self.eo[i] != other.eo[i] {
                same = false;
            }
        }
        proof {
            if same {
                assert(self.cp =~= other.cp);
                assert(self.co =~= other.co);
                assert(self.ep =~= other.ep);
                assert(self.eo =~= other.eo);
            }
        }
        same
    }
}

impl vstd::std_specs::ops::AddSpecImpl for Permutation {
    open spec fn obeys_add_spec() -> bool {
        true
    }

    open spec fn add_req(self, other: Permutation) -> bool {
        self.wf() && other.wf()
    }

    open spec fn add_spec(self, other: Permutation) -> Permutation {
        self.compose(other)
    }
}

impl Add for Permutation {
    type Output = Permutation;

    /// `self + other` is `self ∘ other`: `other` is applied first.
    fn add(self, other: Permutation) -> (res: Permutation)
        ensures
            res.wf(),
    {
        let mut new = Permutation::id();
        for i in 0..8
            invariant
                self.in_range(),
                other.in_range(),
                forall|k: int| 0 <= k < i ==> new.cp[k] == self.cp[other.cp[k] as int],
                forall|k: int|
                    0 <= k < i ==> new.co[k] == (self.co[other.cp[k] as int] + other.co[k]) % 3,
        {
            new.co[i] = (self.co[other.cp[i]] + other.co[i]) % 3;
            new.cp[i] = self.cp[other.cp[i]];
        }
        for i in 0..12
            invariant
                self.in_range(),
                other.in_range(),
                forall|k: int| 0 <= k < 8 ==> new.cp[k] == self.cp[other.cp[k] as int],
                forall|k: int|
                    0 <= k < 8 ==> new.co[k] == (self.co[other.cp[k] as int] + other.co[k]) % 3,
                forall|k: int| 0 <= k < i ==> new.ep[k] == self.ep[other.ep[k] as int],
                forall|k: int|
                    0 <= k < i ==> new.eo[k] == (self.eo[other.ep[k] as int] + other.eo[k]) % 2,
        {
            new.eo[i] = (self.eo[other.ep[i]] + other.eo[i]) % 2;
            new.ep[i] = self.ep[other.ep[i]];
        }
        proof {
            assert(new.cp =~= self.compose(other).cp);
            assert(new.co =~= self.compose(other).co);
            assert(new.ep =~= self.compose(other).ep);
            assert(new.eo =~= self.compose(other).eo);
            lemma_compose_wf(self, other);
        }
        new
    }
}

/// Closure: the composition of two well-formed states is well-formed.
pub proof fn lemma_compose_wf(a: Permutation, b: Permutation)
    requires
        a.wf(),
        b.wf(),
    ensures
        a.compose(b).wf(),
{
    let c = a.compose(b);
    assert(c.in_range());
    assert forall|i: int, j: int| 0 <= i < 8 && 0 <= j < 8 && i != j implies c.cp@[i]
        != c.cp@[j] by {
        assert(b.cp@[i] != b.cp@[j]);
        assert(a.cp@[b.cp[i] as int] != a.cp@[b.cp[j] as int]);
    }
    assert forall|i: int, j: int| 0 <= i < 12 && 0 <= j < 12 && i != j implies c.ep@[i]
        != c.ep@[j] by {
        assert(b.ep@[i] != b.ep@[j]);
        assert(a.ep@[b.ep[i] as int] != a.ep@[b.ep[j] as int]);
    }
}

impl vstd::std_specs::ops::NegSpecImpl for Permutation {
    open spec fn obeys_neg_spec() -> bool {
        true
    }

    open spec fn neg_req(self) -> bool {
        self.wf()
    }

    open spec fn neg_spec(self) -> Permutation {
        self.inverse()
    }
}

impl Neg for Permutation {
    type Output = Permutation;

    /// `-self` undoes `self`.
    fn neg(self) -> (res: Permutation)
        ensures
            res.wf(),
    {
        let mut new = self;
        for i in 0..8
            invariant
                self.wf(),
                forall|k: int| 0 <= k < i ==> new.cp[self.cp[k] as int] == k,
                forall|k: int|
                    0 <= k < i ==> new.co[self.cp[k] as int] == twist_inverse(self.co[k]),
        {
            new.co[self.cp[i]] = (3 - self.co[i]) % 3;
            new.cp[self.cp[i]] = i;
        }
        for i in 0..12
            invariant
                self.wf(),
                forall|k: int| 0 <= k < 8 ==> new.cp[self.cp[k] as int] == k,
                forall|k: int|
                    0 <= k < 8 ==> new.co[self.cp[k] as int] == twist_inverse(self.co[k]),
                forall|k: int| 0 <= k < i ==> new.ep[self.ep[k] as int] == k,
                forall|k: int| 0 <= k < i ==> new.eo[self.ep[k] as int] == self.eo[k],
        {
            new.eo[self.ep[i]] = self.eo[i];
            new.ep[self.ep[i]] = i;
        }
        proof {
            lemma_inverse_unique(self, new);
            lemma_inverse_wf(self);
        }
        new
    }
}

impl vstd::std_specs::ops::MulSpecImpl<isize> for Permutation {
    open spec fn obeys_mul_spec() -> bool {
        true
    }

    open spec fn mul_req(self, num: isize) -> bool {
        self.wf()
    }

    open spec fn mul_spec(self, num: isize) -> Permutation {
        self.pow(num as int)
    }
}

impl Mul<isize> for Permutation {
    type Output = Permutation;

    /// `self * num` is `self` to the power `num`.
    fn mul(self, num: isize) -> (res: Permutation)
        ensures
            res.wf(),
    {
        let mut result = Permutation::id();
        let mut left: isize = num;
        while left != 0
            invariant
                self.wf(),
                result.wf(),
                num < 0 ==> num <= left <= 0,
                num >= 0 ==> 0 <= left <= num,
                num < 0 ==> result == self.repeat((left - num) as nat),
                num >= 0 ==> result == self.repeat((num - left) as nat),
            decreases (if left < 0 { -left } else { left as int }),
        {
            result = result + self;
            if left < 0 {
                left = left + 1;
            } else {
                left = left - 1;
            }
        }
        if num < 0 {
            result.neg()
        } else {
            result
        }
    }
}

/// What pins an inverse down: a state `y` that returns every piece of `x`
/// to the slot it came from, with corner twists reversed and edge flips
/// kept, is the inverse of `x`.
pub proof fn lemma_inverse_unique(x: Permutation, y: Permutation)
    requires
        x.wf(),
        forall|i: int| 0 <= i < 8 ==> y.cp[#[trigger] x.cp[i] as int] == i,
        forall|i: int| 0 <= i < 8 ==> y.co[#[trigger] x.cp[i] as int] == twist_inverse(x.co[i]),
        forall|i: int| 0 <= i < 12 ==> y.ep[#[trigger] x.ep[i] as int] == i,
        forall|i: int| 0 <= i < 12 ==> y.eo[#[trigger] x.ep[i] as int] == x.eo[i],
    ensures
        y == x.inverse(),
{
    let inv = x.inverse();
    assert forall|j: int| 0 <= j < 8 implies y.cp[j] == inv.cp[j] && y.co[j] == inv.co[j] by {
        lemma_placement_onto(x.cp@, j);
        let i = slot_of(x.cp@, j);
        assert(x.cp[i] == j);
    }
    assert forall|j: int| 0 <= j < 12 implies y.ep[j] == inv.ep[j] && y.eo[j] == inv.eo[j] by {
        lemma_placement_onto(x.ep@, j);
        let i = slot_of(x.ep@, j);
        assert(x.ep[i] == j);
    }
    assert(y.cp =~= inv.cp);
    assert(y.co =~= inv.co);
    assert(y.ep =~= inv.ep);
    assert(y.eo =~= inv.eo);
}

/// The inverse, slot by slot: it sends the piece in slot `i` of `x` back
/// to `i`.
pub proof fn lemma_inverse_pointwise(x: Permutation)
    requires
        x.wf(),
    ensures
        forall|i: int| 0 <= i < 8 ==> x.inverse().cp[#[trigger] x.cp[i] as int] == i,
        forall|i: int|
            0 <= i < 8 ==> x.inverse().co[#[trigger] x.cp[i] as int] == twist_inverse(x.co[i]),
        forall|i: int| 0 <= i < 12 ==> x.inverse().ep[#[trigger] x.ep[i] as int] == i,
        forall|i: int| 0 <= i < 12 ==> x.inverse().eo[#[trigger] x.ep[i] as int] == x.eo[i],
{
    let inv = x.inverse();
    assert forall|i: int| 0 <= i < 8 implies inv.cp[#[trigger] x.cp[i] as int] == i
        && inv.co[x.cp[i] as int] == twist_inverse(x.co[i]) by {
        let j = x.cp[i] as int;
        lemma_placement_onto(x.cp@, j);
        assert(slot_of(x.cp@, j) == i);
    }
    assert forall|i: int| 0 <= i < 12 implies inv.ep[#[trigger] x.ep[i] as int] == i
        && inv.eo[x.ep[i] as int] == x.eo[i] by {
        let j = x.ep[i] as int;
        lemma_placement_onto(x.ep@, j);
        assert(slot_of(x.ep@, j) == i);
    }
}

/// The corner entries of an inverse, read through the slot that held the
/// piece.
pub proof fn lemma_inverse_corner(x: Permutation, j: int)
    requires
        x.wf(),
        0 <= j < 8,
    ensures
        0 <= slot_of(x.cp@, j) < 8,
        x.cp[slot_of(x.cp@, j)] == j,
        x.inverse().cp[j] == slot_of(x.cp@, j),
        x.inverse().co[j] == twist_inverse(x.co[slot_of(x.cp@, j)]),
{
    lemma_placement_onto(x.cp@, j);
}

/// The edge entries of an inverse, read through the slot that held the
/// piece.
pub proof fn lemma_inverse_edge(x: Permutation, j: int)
    requires
        x.wf(),
        0 <= j < 12,
    ensures
        0 <= slot_of(x.ep@, j) < 12,
        x.ep[slot_of(x.ep@, j)] == j,
        x.inverse().ep[j] == slot_of(x.ep@, j),
        x.inverse().eo[j] == x.eo[slot_of(x.ep@, j)],
{
    lemma_placement_onto(x.ep@, j);
}

/// Closure: the inverse of a well-formed state is well-formed.
pub proof fn lemma_inverse_wf(x: Permutation)
    requires
        x.wf(),
    ensures
        x.inverse().wf(),
{
    let inv = x.inverse();
    assert(inv.in_range()) by {
        assert forall|j: int| 0 <= j < 8 implies #[trigger] inv.cp[j] < 8 by {
            lemma_inverse_corner(x, j);
        }
        assert forall|j: int| 0 <= j < 8 implies #[trigger] inv.co[j] < 3 by {
            lemma_inverse_corner(x, j);
        }
        assert forall|j: int| 0 <= j < 12 implies #[trigger] inv.ep[j] < 12 by {
            lemma_inverse_edge(x, j);
        }
        assert forall|j: int| 0 <= j < 12 implies #[trigger] inv.eo[j] < 2 by {
            lemma_inverse_edge(x, j);
        }
    }
    assert(inv.cp@.no_duplicates()) by {
        assert forall|i: int, j: int| 0 <= i < 8 && 0 <= j < 8 && i != j implies inv.cp@[i]
            != inv.cp@[j] by {
            lemma_inverse_corner(x, i);
            lemma_inverse_corner(x, j);
        }
    }
    assert(inv.ep@.no_duplicates()) by {
        assert forall|i: int, j: int| 0 <= i < 12 && 0 <= j < 12 && i != j implies inv.ep@[i]
            != inv.ep@[j] by {
            lemma_inverse_edge(x, i);
            lemma_inverse_edge(x, j);
        }
    }
}

/// Closure: every power of a well-formed state is well-formed.
pub proof fn lemma_repeat_wf(x: Permutation, n: nat)
    requires
        x.wf(),
    ensures
        x.repeat(n).wf(),
    decreases n,
{
    if n > 0 {
        lemma_repeat_wf(x, (n - 1) as nat);
        lemma_compose_wf(x.repeat((n - 1) as nat), x);
    }
}

/// Identity law: the solved state is neutral on both sides.
pub proof fn lemma_identity(x: Permutation)
    requires
        x.wf(),
    ensures
        x.compose(Permutation::id()) == x,
        Permutation::id().compose(x) == x,
{
    let id = Permutation::id();
    let right = x.compose(id);
    let left = id.compose(x);
    assert(right.cp =~= x.cp);
    assert(right.co =~= x.co);
    assert(right.ep =~= x.ep);
    assert(right.eo =~= x.eo);
    assert(left.cp =~= x.cp);
    assert(left.co =~= x.co);
    assert(left.ep =~= x.ep);
    assert(left.eo =~= x.eo);
}

/// Inverse law: a state and its inverse cancel on both sides.
pub proof fn lemma_inverse(x: Permutation)
    requires
        x.wf(),
    ensures
        x.compose(x.inverse()) == Permutation::id(),
        x.inverse().compose(x) == Permutation::id(),
{
    let id = Permutation::id();
    let inv = x.inverse();
    let right = x.compose(inv);
    let left = inv.compose(x);
    lemma_inverse_pointwise(x);
    assert forall|j: int| 0 <= j < 8 implies right.cp[j] == id.cp[j] && right.co[j]
        == id.co[j] by {
        lemma_inverse_corner(x, j);
    }
    assert forall|j: int| 0 <= j < 12 implies right.ep[j] == id.ep[j] && right.eo[j]
        == id.eo[j] by {
        lemma_inverse_edge(x, j);
    }
    assert(right.cp =~= id.cp);
    assert(right.co =~= id.co);
    assert(right.ep =~= id.ep);
    assert(right.eo =~= id.eo);
    assert forall|i: int| 0 <= i < 8 implies left.cp[i] == id.cp[i] && left.co[i] == id.co[i] by {
        assert(inv.cp[x.cp[i] as int] == i);
        assert(inv.co[x.cp[i] as int] == twist_inverse(x.co[i]));
    }
    assert forall|i: int| 0 <= i < 12 implies left.ep[i] == id.ep[i] && left.eo[i]
        == id.eo[i] by {
        assert(inv.ep[x.ep[i] as int] == i);
        assert(inv.eo[x.ep[i] as int] == x.eo[i]);
    }
    assert(left.cp =~= id.cp);
    assert(left.co =~= id.co);
    assert(left.ep =~= id.ep);
    assert(left.eo =~= id.eo);
}

/// Composition is associative.
pub proof fn lemma_associative(a: Permutation, b: Permutation, c: Permutation)
    requires
        a.wf(),
        b.wf(),
        c.wf(),
    ensures
        a.compose(b).compose(c) == a.compose(b.compose(c)),
{
    let left = a.compose(b).compose(c);
    let right = a.compose(b.compose(c));
    assert(left.cp =~= right.cp);
    assert(left.co =~= right.co);
    assert(left.ep =~= right.ep);
    assert(left.eo =~= right.eo);
}

/// Two states with the same entries are the same state.
pub proof fn lemma_equal_entries(a: Permutation, b: Permutation)
    requires
        forall|i: int| 0 <= i < 8 ==> #[trigger] a.cp[i] == b.cp[i],
        forall|i: int| 0 <= i < 8 ==> #[trigger] a.co[i] == b.co[i],
        forall|i: int| 0 <= i < 12 ==> #[trigger] a.ep[i] == b.ep[i],
        forall|i: int| 0 <= i < 12 ==> #[trigger] a.eo[i] == b.eo[i],
    ensures
        a == b,
{
    assert(a.cp =~= b.cp);
    assert(a.co =~= b.co);
    assert(a.ep =~= b.ep);
    assert(a.eo =~= b.eo);
}

/// A one-sided inverse is the inverse: if `a ∘ b` is the identity, each of
/// the two undoes the other.
pub proof fn lemma_inverse_from_product(a: Permutation, b: Permutation)
    requires
        a.wf(),
        b.wf(),
        a.compose(b) == Permutation::id(),
    ensures
        a == b.inverse(),
        b == a.inverse(),
{
    let id = Permutation::id();
    lemma_inverse_wf(a);
    lemma_inverse_wf(b);
    lemma_inverse(a);
    lemma_inverse(b);
    lemma_identity(a);
    lemma_identity(b);
    lemma_identity(a.inverse());
    lemma_identity(b.inverse());
    lemma_associative(a, b, b.inverse());
    lemma_associative(a.inverse(), a, b);
}

/// Composition is not commutative: turning R and then U is not turning U
/// and then R.
pub proof fn lemma_not_commutative()
    ensures
        Permutation::r().compose(Permutation::u()) != Permutation::u().compose(Permutation::r()),
{
    let ru = Permutation::r().compose(Permutation::u());
    let ur = Permutation::u().compose(Permutation::r());
    assert(ru.cp[0] == 0);
    assert(ur.cp[0] == 4);
}

/// A state is one of the six face generators.
pub open spec fn is_generator(g: Permutation) -> bool {
    ||| g == Permutation::u()
    ||| g == Permutation::d()
    ||| g == Permutation::l()
    ||| g == Permutation::r()
    ||| g == Permutation::f()
    ||| g == Permutation::b()
}

/// Quarter-turn order: four quarter turns of one face do nothing, and
/// three of them are the quarter turn the other way.
pub proof fn lemma_quarter_turn_order(g: Permutation)
    requires
        is_generator(g),
    ensures
        g.compose(g).compose(g).compose(g) == Permutation::id(),
        g.compose(g).compose(g) == g.inverse(),
        g.repeat(4) == Permutation::id(),
        g.repeat(3) == g.inverse(),
{
    let id = Permutation::id();
    let g2 = g.compose(g);
    let g3 = g2.compose(g);
    let g4 = g3.compose(g);
    let corners = |i: int| g4.cp[i] == id.cp[i] && g4.co[i] == id.co[i];
    let edges = |i: int| g4.ep[i] == id.ep[i] && g4.eo[i] == id.eo[i];
    // The branches are alike on purpose: in each the generator is known,
    // and the entries of its fourth power are computed from its tables.
    if g == Permutation::u() {
        lemma_each8(corners);
        lemma_each12(edges);
    } else if g == Permutation::d() {
        lemma_each8(corners);
        lemma_each12(edges);
    } else if g == Permutation::l() {
        lemma_each8(corners);
        lemma_each12(edges);
    } else if g == Permutation::r() {
        lemma_each8(corners);
        lemma_each12(edges);
    } else if g == Permutation::f() {
        lemma_each8(corners);
        lemma_each12(edges);
    } else {
        lemma_each8(corners);
        lemma_each12(edges);
    }
    lemma_equal_entries(g4, id);
    assert(g3.compose(g) == id && g.repeat(4) == g4 && g.repeat(3) == g3) by {
        lemma_identity(g);
        reveal_with_fuel(Permutation::repeat, 5);
    }
    assert(g3 == g.inverse()) by {
        lemma_compose_wf(g, g);
        lemma_compose_wf(g2, g);
        lemma_inverse_from_product(g3, g);
    }
}

} // verus!
