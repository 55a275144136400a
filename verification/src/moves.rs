//! A single quarter turn of one layer.

use vstd::prelude::*;

use crate::geometry::{turned, N};

verus! {

/// A quarter turn of one layer.
///
/// `axis` is 0 for upper/lower, 1 for right/left and 2 for front/back; `layer` counts from the
/// upper, right or front face; `cw` is clockwise seen from that face.
#[derive(Clone, Copy, Debug, PartialEq, Eq, Structural)]
pub struct Move {
    pub axis: u8,
    pub layer: u16,
    pub cw: bool,
}

impl Move {
    /// The move names an axis and a layer that the cube has.
    pub open spec fn valid(self) -> bool {
        self.axis < 3 && self.layer < N
    }

    /// The cells `s` after this move.
    pub open spec fn applied(self, s: Seq<u8>) -> Seq<u8> {
        turned(s, self.axis as int, self.layer as int, self.cw)
    }

    /// The same layer in the other direction.
    pub open spec fn reversed(self) -> Move {
        Move { axis: self.axis, layer: self.layer, cw: !self.cw }
    }

    /// The same layer in the other direction.
    pub fn inverse(self) -> (res: Self)
        ensures
            res == self.reversed(),
    {
        Move { axis: self.axis, layer: self.layer, cw: !self.cw }
    }
}

/// The cells `s` after all of `moves`, in order.
pub open spec fn applied_all(s: Seq<u8>, moves: Seq<Move>) -> Seq<u8>
    decreases moves.len(),
{
    if moves.len() == 0 {
        s
    } else {
        moves.last().applied(applied_all(s, moves.drop_last()))
    }
}

/// Every move of the sequence is one that the cube can make.
pub open spec fn all_valid(moves: Seq<Move>) -> bool {
    forall|i: int| 0 <= i < moves.len() ==> (#[trigger] moves[i]).valid()
}

} // verus!
