//! A single four-state bit and its truth tables.
use vstd::prelude::*;

verus! {

/// A single 4-state bit.
#[derive(Debug, Clone, Copy, PartialEq, Eq, Hash, Structural)]
pub enum Bit {
    Zero,
    One,
    X,
    Z,
}

impl Bit {
    /// The state that the plane pair `(a, b)` encodes.
    pub open spec fn of_planes(a: bool, b: bool) -> Bit {
        match (a, b) {
            (false, false) => Bit::Zero,
            (true, false) => Bit::One,
            (false, true) => Bit::X,
            (true, true) => Bit::Z,
        }
    }

    /// The `aval` plane of this state.
    pub open spec fn a(self) -> bool {
        self == Bit::One || self == Bit::Z
    }

    /// The `bval` plane of this state: set for `x` and `z`.
    pub open spec fn b(self) -> bool {
        self == Bit::X || self == Bit::Z
    }

    /// `0` or `1`, as opposed to `x` or `z`.
    pub open spec fn known(self) -> bool {
        !self.b()
    }

    /// The digit a fully known bit contributes; `x` and `z` contribute nothing.
    pub open spec fn digit(self) -> nat {
        if self == Bit::One {
            1
        } else {
            0
        }
    }

    /// The known bit for a truth value.
    pub open spec fn of_bool(v: bool) -> Bit {
        if v {
            Bit::One
        } else {
            Bit::Zero
        }
    }

    /// Four-state NOT.
    pub open spec fn inverted(self) -> Bit {
        match self {
            Bit::Zero => Bit::One,
            Bit::One => Bit::Zero,
            Bit::X => Bit::X,
            Bit::Z => Bit::X,
        }
    }

    /// Four-state AND: `0` dominates, then an unknown operand gives `x`.
    pub open spec fn conj(self, other: Bit) -> Bit {
        if self == Bit::Zero || other == Bit::Zero {
            Bit::Zero
        } else if self == Bit::One && other == Bit::One {
            Bit::One
        } else {
            Bit::X
        }
    }

    /// Four-state OR: `1` dominates, then an unknown operand gives `x`.
    pub open spec fn disj(self, other: Bit) -> Bit {
        if self == Bit::One || other == Bit::One {
            Bit::One
        } else if self == Bit::Zero && other == Bit::Zero {
            Bit::Zero
        } else {
            Bit::X
        }
    }

    /// Four-state XOR: any unknown operand gives `x`.
    pub open spec fn parity(self, other: Bit) -> Bit {
        if self.known() && other.known() {
            Bit::of_bool(self != other)
        } else {
            Bit::X
        }
    }

    /// The display character of this state.
    pub open spec fn glyph(self) -> char {
        match self {
            Bit::Zero => '0',
            Bit::One => '1',
            Bit::X => 'x',
            Bit::Z => 'z',
        }
    }

    /// `(aval, bval)` plane bits for this state.
    pub fn planes(self) -> (r: (u64, u64))
        ensures
            r.0 == (if self.a() { 1u64 } else { 0u64 }),
            r.1 == (if self.b() { 1u64 } else { 0u64 }),
    {
        match self {
            Bit::Zero => (0, 0),
            Bit::One => (1, 0),
            Bit::X => (0, 1),
            Bit::Z => (1, 1),
        }
    }

    /// Decode a `(aval, bval)` plane pair (low bit of each) into a [`Bit`].
    pub fn from_planes(aval: u64, bval: u64) -> (r: Bit)
        ensures
            r == Bit::of_planes(aval & 1 == 1, bval & 1 == 1),
    {
        assert(aval & 1 == 0 || aval & 1 == 1) by (bit_vector);
        assert(bval & 1 == 0 || bval & 1 == 1) by (bit_vector);
        let a: u64 = aval & 1;
        let b: u64 = bval & 1;
        if a == 0 {
            if b == 0 {
                Bit::Zero
            } else {
                Bit::X
            }
        } else if b == 0 {
            Bit::One
        } else {
            Bit::Z
        }
    }

    /// The display character for this bit (`0`, `1`, `x`, `z`).
    pub fn to_char(self) -> (c: char)
        ensures
            c == self.glyph(),
    {
        match self {
            Bit::Zero => '0',
            Bit::One => '1',
            Bit::X => 'x',
            Bit::Z => 'z',
        }
    }

    /// True for `x` or `z`.
    pub fn is_unknown(self) -> (r: bool)
        ensures
            r == !self.known(),
    {
        match self {
            Bit::X | Bit::Z => true,
            _ => false,
        }
    }
}

/// Splitting a state into its planes and putting them together again is the
/// identity, so the encoding loses nothing.
pub proof fn planes_round_trip(bit: Bit)
    ensures
        Bit::of_planes(bit.a(), bit.b()) == bit,
{
}

} // verus!
