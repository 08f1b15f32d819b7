use vstd::prelude::*;

verus! {

/// The bit that marks a horizontally flipped tile in a raw global id.
pub const FLIPPED_HORIZONTALLY_FLAG: u32 = 0x8000_0000;

/// The bit that marks a vertically flipped tile in a raw global id.
pub const FLIPPED_VERTICALLY_FLAG: u32 = 0x4000_0000;

/// The bit that marks a diagonally flipped tile in a raw global id.
pub const FLIPPED_DIAGONALLY_FLAG: u32 = 0x2000_0000;

/// All three flip bits together.
pub const ALL_FLIP_FLAGS: u32 = FLIPPED_HORIZONTALLY_FLAG | FLIPPED_VERTICALLY_FLAG
    | FLIPPED_DIAGONALLY_FLAG;

/// One cell of a Tiled map layer: an optional tile index plus its flip bits.
/// The default value, with no index, stands for an empty cell.
#[derive(Clone, Copy, Debug, Default, PartialEq, Eq, Structural)]
pub struct TiledTile {
    pub index: Option<u32>,
    pub flip_h: bool,
    pub flip_v: bool,
    pub flip_d: bool,
}

impl TiledTile {
    /// The raw global id this tile serializes to: the index shifted up by
    /// one, with the flip bits set on top; an empty cell becomes zero.
    pub open spec fn spec_gid(self) -> u32 {
        let base: u32 = match self.index {
            Some(i) => (i + 1) as u32,
            None => 0,
        };
        let with_h: u32 = if self.flip_h {
            base | FLIPPED_HORIZONTALLY_FLAG
        } else {
            base
        };
        let with_v: u32 = if self.flip_v {
            with_h | FLIPPED_VERTICALLY_FLAG
        } else {
            with_h
        };
        if self.flip_d {
            with_v | FLIPPED_DIAGONALLY_FLAG
        } else {
            with_v
        }
    }

    /// Serializes the tile to its raw global id.
    pub fn to_gid(&self) -> (r: u32)
        requires
            self.index matches Some(i) ==> i < u32::MAX,
        ensures
            r == self.spec_gid(),
    {
        let mut result: u32 = match self.index {
            Some(i) => i + 1,
            None => 0,
        };
        if self.flip_h {
            result |= FLIPPED_HORIZONTALLY_FLAG
        }
        if self.flip_v {
            result |= FLIPPED_VERTICALLY_FLAG
        }
        if self.flip_d {
            result |= FLIPPED_DIAGONALLY_FLAG
        }

        result
    }

    /// Reads a tile back from a raw global id: the flip bits are split off
    /// and the rest is kept as the tile's index.
    pub fn from_gid(value: u32) -> (r: Self)
        ensures
            r.index == Some(value & !ALL_FLIP_FLAGS),
            r.flip_h == ((value & FLIPPED_HORIZONTALLY_FLAG) == FLIPPED_HORIZONTALLY_FLAG),
            r.flip_v == ((value & FLIPPED_VERTICALLY_FLAG) == FLIPPED_VERTICALLY_FLAG),
            r.flip_d == ((value & FLIPPED_DIAGONALLY_FLAG) == FLIPPED_DIAGONALLY_FLAG),
    {
        proof {
            let all = 0x8000_0000u32 | 0x4000_0000u32 | 0x2000_0000u32;
            assert(((value & (0x8000_0000u32 | 0x4000_0000u32 | 0x2000_0000u32)) & 0x8000_0000u32)
                == (value & 0x8000_0000u32)) by (bit_vector);
            assert(((value & (0x8000_0000u32 | 0x4000_0000u32 | 0x2000_0000u32)) & 0x4000_0000u32)
                == (value & 0x4000_0000u32)) by (bit_vector);
            assert(((value & (0x8000_0000u32 | 0x4000_0000u32 | 0x2000_0000u32)) & 0x2000_0000u32)
                == (value & 0x2000_0000u32)) by (bit_vector);
            assert(ALL_FLIP_FLAGS == all);
        }
        let flags = value & ALL_FLIP_FLAGS;
        let gid = value & !ALL_FLIP_FLAGS;
        Self {
            index: Some(gid),
            flip_h: flags & FLIPPED_HORIZONTALLY_FLAG == FLIPPED_HORIZONTALLY_FLAG,
            flip_v: flags & FLIPPED_VERTICALLY_FLAG == FLIPPED_VERTICALLY_FLAG,
            flip_d: flags & FLIPPED_DIAGONALLY_FLAG == FLIPPED_DIAGONALLY_FLAG,
        }
    }
}

} // verus!
