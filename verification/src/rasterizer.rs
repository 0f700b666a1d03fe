//! Handles of a rasteriser's buffers: which of its buffers an operation
//! touches, the kind of primitive it draws, and the ids of loaded vertex data.
use vstd::prelude::*;
use vstd::std_specs::ops::{BitAndSpecImpl, BitOrSpecImpl};

verus! {

/// A non-empty choice among the colour buffer and the depth buffer.
#[derive(Clone, Copy, Debug, PartialEq, Eq, Structural)]
pub enum Buffers {
    Color,
    Depth,
    Both,
}

/// The kinds of primitive that can be drawn.
#[derive(Clone, Copy, Debug, PartialEq, Eq, Structural)]
pub enum Primitive {
    Triangle,
}

/// Id of a loaded list of vertex positions.
#[derive(Clone, Copy, Debug, PartialEq, Eq, Structural)]
pub struct PosBufID {
    pub pos_id: usize,
}

/// Id of a loaded list of vertex indices.
#[derive(Clone, Copy, Debug, PartialEq, Eq, Structural)]
pub struct IndBufID {
    pub ind_id: usize,
}

/// Id of a loaded list of vertex colours.
#[derive(Clone, Copy, Debug, PartialEq, Eq, Structural)]
pub struct ColBufID {
    pub col_id: usize,
}

impl Buffers {
    /// Whether the colour buffer is chosen.
    pub open spec fn has_color(self) -> bool {
        self != Buffers::Depth
    }

    /// Whether the depth buffer is chosen.
    pub open spec fn has_depth(self) -> bool {
        self != Buffers::Color
    }

    /// The choice as bits: one for the colour buffer, two for the depth
    /// buffer.
    pub open spec fn bits_spec(self) -> int {
        (if self.has_color() { 1int } else { 0int }) + (if self.has_depth() { 2int } else { 0int })
    }

    /// The choice as bits: one for the colour buffer, two for the depth
    /// buffer.
    pub fn bits(self) -> (r: i32)
        ensures
            r == self.bits_spec(),
    {
        match self {
            Buffers::Color => 1,
            Buffers::Depth => 2,
            Buffers::Both => 3,
        }
    }

    /// The choice with the given bits; `None` unless `bits` is 1, 2 or 3.
    pub fn from_i32(bits: i32) -> (r: Option<Buffers>)
        ensures
            match r {
                Some(b) => b.bits_spec() == bits,
                None => bits < 1 || bits > 3,
            },
    {
        if bits == 1 {
            Some(Buffers::Color)
        } else if bits == 2 {
            Some(Buffers::Depth)
        } else if bits == 3 {
            Some(Buffers::Both)
        } else {
            None
        }
    }
}

/// The buffers chosen by `a` or by `b`.
pub open spec fn either(a: Buffers, b: Buffers) -> Buffers {
    if a == b {
        a
    } else {
        Buffers::Both
    }
}

/// Whether `a` and `b` share a buffer.
pub open spec fn share(a: Buffers, b: Buffers) -> bool {
    a == b || a == Buffers::Both || b == Buffers::Both
}

/// The buffers chosen by `a` and by `b`, where they share one.
pub open spec fn both(a: Buffers, b: Buffers) -> Buffers {
    if a == Buffers::Both {
        b
    } else {
        a
    }
}

impl core::ops::BitOr for Buffers {
    type Output = Buffers;

    /// The buffers chosen by either operand.
    fn bitor(self, rhs: Buffers) -> (r: Buffers) {
        if self == rhs {
            self
        } else {
            Buffers::Both
        }
    }
}

impl BitOrSpecImpl for Buffers {
    open spec fn obeys_bitor_spec() -> bool {
        true
    }

    open spec fn bitor_req(self, rhs: Buffers) -> bool {
        true
    }

    open spec fn bitor_spec(self, rhs: Buffers) -> Buffers {
        either(self, rhs)
    }
}

impl core::ops::BitAnd for Buffers {
    type Output = Buffers;

    /// The buffers chosen by both operands, of which there must be one.
    fn bitand(self, rhs: Buffers) -> (r: Buffers) {
        if self == Buffers::Both {
            rhs
        } else {
            self
        }
    }
}

impl BitAndSpecImpl for Buffers {
    open spec fn obeys_bitand_spec() -> bool {
        true
    }

    /// The operands share a buffer.
    open spec fn bitand_req(self, rhs: Buffers) -> bool {
        share(self, rhs)
    }

    open spec fn bitand_spec(self, rhs: Buffers) -> Buffers {
        both(self, rhs)
    }
}

/// `|` chooses a buffer exactly if one of the operands does, and `&`, on
/// operands that share a buffer, exactly if both do.
pub proof fn lemma_buffers_are_sets(a: Buffers, b: Buffers)
    ensures
        either(a, b).has_color() == (a.has_color() || b.has_color()),
        either(a, b).has_depth() == (a.has_depth() || b.has_depth()),
        share(a, b) <==> (a.has_color() && b.has_color()) || (a.has_depth() && b.has_depth()),
        share(a, b) ==> both(a, b).has_color() == (a.has_color() && b.has_color()),
        share(a, b) ==> both(a, b).has_depth() == (a.has_depth() && b.has_depth()),
{
}

} // verus!
