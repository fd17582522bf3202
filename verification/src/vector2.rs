use vstd::prelude::*;

verus! {

/// Half the width of the `i32` range: adding it to a coordinate moves the
/// coordinate into `0 .. 2^32`.
pub const COORD_OFFSET: i64 = 0x8000_0000;

/// The number of values a coordinate can take.
pub const COORD_SPAN: u64 = 0x1_0000_0000;

/// Whether `c` is a value that a coordinate of a vector can hold.
pub open spec fn coord_fits(c: int) -> bool {
    -0x8000_0000 <= c <= 0x7fff_ffff
}

/// A lattice column as a pair of mathematical integers.
pub type Column = (int, int);

/// Whether both coordinates of `c` can be held by a [`Vector2`].
pub open spec fn column_fits(c: Column) -> bool {
    coord_fits(c.0) && coord_fits(c.1)
}

/// The integer that stands for the column `c` where a column is used as a
/// key: the two coordinates, shifted to be non-negative, as the two digits of
/// a number in base `2^32`.
pub open spec fn column_key(c: Column) -> int {
    (c.0 + 0x8000_0000) * 0x1_0000_0000 + (c.1 + 0x8000_0000)
}

/// The column that the key `k` stands for.
pub open spec fn key_column(k: int) -> Column {
    (k / 0x1_0000_0000 - 0x8000_0000, k % 0x1_0000_0000 - 0x8000_0000)
}

/// A key determines its column: decoding the key of a column that fits gives
/// the column back, and the key is a `u64`.
pub proof fn lemma_column_key_round_trip(c: Column)
    requires
        column_fits(c),
    ensures
        0 <= column_key(c) <= u64::MAX,
        key_column(column_key(c)) == c,
{
}

/// Every `u64` is the key of exactly one column.
pub proof fn lemma_key_column_round_trip(k: int)
    requires
        0 <= k <= u64::MAX,
    ensures
        column_fits(key_column(k)),
        column_key(key_column(k)) == k,
{
}

/// A column of the lattice: its x and y coordinates.
#[derive(Debug, Hash, Eq, PartialEq, Clone, Copy, Structural)]
pub struct Vector2(pub i32, pub i32);

impl View for Vector2 {
    type V = Column;

    open spec fn view(&self) -> Column {
        (self.0 as int, self.1 as int)
    }
}

impl Vector2 {
    /// The key of this column.
    pub fn key(&self) -> (k: u64)
        ensures
            k == column_key(self@),
    {
        let hi: u64 = (self.0 as i64 + COORD_OFFSET) as u64;
        let lo: u64 = (self.1 as i64 + COORD_OFFSET) as u64;
        hi * COORD_SPAN + lo
    }

    /// The column with the key `k`.
    pub fn from_key(k: u64) -> (v: Vector2)
        ensures
            v@ == key_column(k as int),
            column_key(v@) == k,
    {
        let hi: u64 = k / COORD_SPAN;
        let lo: u64 = k % COORD_SPAN;
        Vector2((hi as i64 - COORD_OFFSET) as i32, (lo as i64 - COORD_OFFSET) as i32)
    }
}

} // verus!
