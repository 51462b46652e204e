use vstd::prelude::*;

verus! {

use crate::shape::ShapeType;
use crate::bag::{Bag, bag_code_at, type_of_code};

/// The single-slot hold: at most one stored shape kind, and a flag that
/// limits the player to one swap per piece lifetime.
pub struct Holder {
    pub shape: Option<ShapeType>,
    pub locked: bool,
}

impl Default for Holder {
    /// An empty, unlocked holder.
    fn default() -> (h: Holder)
        ensures
            h.shape is None,
            !h.locked,
    {
        Holder { shape: None, locked: false }
    }
}

impl Holder {
    /// What a hold returns: nothing while locked; otherwise the previously
    /// held shape, or on the first hold of a game the next bag draw.
    pub open spec fn spec_hold_result(
        self,
        bag_seed: Seq<u8>,
        popped: nat,
    ) -> Option<ShapeType> {
        if self.locked {
            Option::None
        } else {
            match self.shape {
                Option::Some(s) => Option::Some(s),
                Option::None => Option::Some(type_of_code(bag_code_at(bag_seed, popped))),
            }
        }
    }

    /// The holder after a hold: unchanged while locked, else holding the
    /// swapped-in shape and locked until the next spawn.
    pub open spec fn spec_hold_state(self, shape_type: ShapeType) -> Holder {
        if self.locked {
            self
        } else {
            Holder { shape: Option::Some(shape_type), locked: true }
        }
    }

    /// Swaps the active shape into the hold slot, handing back either the
    /// previously held shape or, on the first hold of a game, a fresh draw
    /// from the bag. A second call without an intervening unlock is a
    /// no-op that returns `None`.
    pub fn hold(&mut self, shape_type: ShapeType, bag: &mut Bag) -> (swapped: Option<ShapeType>)
        requires
            old(bag).wf(),
        ensures
            final(bag).wf(),
            *final(self) == old(self).spec_hold_state(shape_type),
            swapped == old(self).spec_hold_result(old(bag).seed@, old(bag).popped@),
            final(bag).seed == old(bag).seed,
            final(bag).popped@ == (if !old(self).locked && old(self).shape is None {
                old(bag).popped@ + 1
            } else {
                old(bag).popped@
            }),
            old(self).locked || old(self).shape is Some ==> *final(bag) == *old(bag),
    {
        if self.locked {
            return None;
        }

        self.locked = true;

        let swap = self.shape;
        self.shape = Some(shape_type);

        match swap {
            None => Some(bag.pop()),
            Some(s) => Some(s),
        }
    }

    /// Permits the next hold; called once per new piece spawn.
    pub fn unlock(&mut self)
        ensures
            *final(self) == (Holder { locked: false, ..*old(self) }),
    {
        self.locked = false;
    }
}

/// The hold is single-use: after any hold succeeds, a second hold in the
/// same piece lifetime (no unlock between them) returns `None` and leaves
/// both the holder and the bag untouched.
pub proof fn lemma_hold_single_use(
    h: Holder,
    shape1: ShapeType,
    shape2: ShapeType,
    bag_seed: Seq<u8>,
    popped: nat,
)
    requires
        !h.locked,
    ensures
        ({
            let h1 = h.spec_hold_state(shape1);
            &&& h1.spec_hold_result(bag_seed, popped) is None
            &&& h1.spec_hold_state(shape2) == h1
        }),
{
}

} // verus!
