//! The packed block position: three coordinates in one 64-bit word.

use vstd::prelude::*;
use crate::codec::{limit64, truncate};

verus! {

/// The number of values of the 26-bit fields `x` and `z`.
pub open spec fn wide_field() -> int {
    0x400_0000
}

/// The number of values of the 12-bit field `y`.
pub open spec fn narrow_field() -> int {
    0x1000
}

/// Three block coordinates.
#[derive(Clone, Copy, Debug, PartialEq, Eq, Structural)]
pub struct Position {
    pub x: i64,
    pub y: i64,
    pub z: i64,
}

/// The packed word of three coordinates: `x` in the top 26 bits, `y` in the
/// 12 bits below them, `z` in the low 26 bits, each coordinate cut down to
/// its field.
pub open spec fn packed_word(x: int, y: int, z: int) -> int {
    (x % wide_field()) * 0x40_0000_0000 + (y % narrow_field()) * 0x400_0000 + (z % wide_field())
}

/// The field `x` of a packed word, as an unsigned number.
pub open spec fn field_x(word: int) -> int {
    word / 0x40_0000_0000
}

/// The field `y` of a packed word, as an unsigned number.
pub open spec fn field_y(word: int) -> int {
    (word / 0x400_0000) % narrow_field()
}

/// The field `z` of a packed word, as an unsigned number.
pub open spec fn field_z(word: int) -> int {
    word % wide_field()
}

/// Unpacking undoes packing up to the width of the fields: each coordinate
/// comes back reduced to its field, so one within its field's unsigned range
/// comes back unchanged.
pub proof fn lemma_position_round_trip(x: int, y: int, z: int)
    ensures
        0 <= packed_word(x, y, z) < limit64(),
        field_x(packed_word(x, y, z)) == x % wide_field(),
        field_y(packed_word(x, y, z)) == y % narrow_field(),
        field_z(packed_word(x, y, z)) == z % wide_field(),
        0 <= x < wide_field() ==> field_x(packed_word(x, y, z)) == x,
        0 <= y < narrow_field() ==> field_y(packed_word(x, y, z)) == y,
        0 <= z < wide_field() ==> field_z(packed_word(x, y, z)) == z,
{
    let a = x % wide_field();
    let b = y % narrow_field();
    let c = z % wide_field();
    let w = a * 0x40_0000_0000 + b * 0x400_0000 + c;
    assert(w / 0x40_0000_0000 == a);
    assert(w / 0x400_0000 == a * 0x1000 + b);
    assert((a * 0x1000 + b) % 0x1000 == b);
    assert(w % 0x400_0000 == c);
}

impl Position {
    /// The packed word of this position.
    pub fn pack(&self) -> (word: u64)
        ensures
            word as int == packed_word(self.x as int, self.y as int, self.z as int),
    {
        let x: u64 = truncate(self.x, 0x400_0000);
        let y: u64 = truncate(self.y, 0x1000);
        let z: u64 = truncate(self.z, 0x400_0000);
        x * 0x40_0000_0000 + y * 0x400_0000 + z
    }

    /// The position whose coordinates are the three fields of `word`, each
    /// read as an unsigned number.
    pub fn unpack(word: u64) -> (p: Position)
        ensures
            p.x as int == field_x(word as int),
            p.y as int == field_y(word as int),
            p.z as int == field_z(word as int),
    {
        Position {
            x: (word / 0x40_0000_0000) as i64,
            y: ((word / 0x400_0000) % 0x1000) as i64,
            z: (word % 0x400_0000) as i64,
        }
    }
}

} // verus!
