use vstd::prelude::*;
use crate::text::{append, decimal, number_text};

verus! {

/// A cell of the field: a column and a row, four bits each in one byte.
#[derive(Debug, Clone, Copy, Eq, PartialEq, Hash, Structural)]
pub struct FieldPosition {
    buffer: u8,
}

impl FieldPosition {
    /// The column, 0 to 15.
    pub closed spec fn spec_column(self) -> int {
        (self.buffer % 16) as int
    }

    /// The row, 0 to 15.
    pub closed spec fn spec_row(self) -> int {
        (self.buffer / 16) as int
    }

    /// The cell of a column and a row, each taken modulo 16.
    pub closed spec fn at(column: int, row: int) -> FieldPosition {
        FieldPosition { buffer: ((column % 16) + 16 * (row % 16)) as u8 }
    }

    /// A position is its column and its row, and nothing else.
    pub proof fn lemma_parts(self)
        ensures
            0 <= self.spec_column() < 16,
            0 <= self.spec_row() < 16,
            self == Self::at(self.spec_column(), self.spec_row()),
    {
    }

    /// `at` keeps the column and the row that it is given, modulo 16.
    pub proof fn lemma_at(column: int, row: int)
        ensures
            Self::at(column, row).spec_column() == column % 16,
            Self::at(column, row).spec_row() == row % 16,
    {
    }

    /// The cell, as in `slot #3 index #0`.
    pub open spec fn spec_text(self) -> Seq<char> {
        "slot #"@ + decimal(self.spec_column() as nat) + " index #"@ + decimal(
            self.spec_row() as nat,
        )
    }

    /// The cell, as in `slot #3 index #0`.
    pub fn to_string(&self) -> (result: String)
        ensures
            result@ == self.spec_text(),
    {
        let mut result = "slot #".to_owned();
        append(&mut result, number_text(self.column()).as_str());
        append(&mut result, " index #");
        append(&mut result, number_text(self.row()).as_str());
        result
    }

    /// The column, 0 to 15.
    #[must_use]
    pub fn column(&self) -> (result: u8)
        ensures
            result == self.spec_column(),
            result < 16,
    {
        let buffer: u8 = self.buffer;
        assert(buffer & 0b1111 == buffer % 16) by (bit_vector);
        self.buffer & 0b1111
    }

    /// The row, 0 to 15.
    #[must_use]
    pub fn row(&self) -> (result: u8)
        ensures
            result == self.spec_row(),
            result < 16,
    {
        let buffer: u8 = self.buffer;
        assert((buffer & (0b1111u8 << 4u8)) >> 4u8 == buffer / 16) by (bit_vector);
        (self.buffer & (0b1111u8 << 4u8)) >> 4u8
    }

    /// Keeps the low four bits of the column and of the row.
    #[must_use]
    pub fn new(column: u8, row: u8) -> (result: Self)
        ensures
            result == Self::at(column as int, row as int),
            result.spec_column() == column % 16,
            result.spec_row() == row % 16,
    {
        assert(((column & 0b1111u8) | ((row & 0b1111u8) << 4u8)) == (column % 16) + 16 * (row % 16))
            by (bit_vector);
        Self { buffer: (column & 0b1111u8) | ((row & 0b1111u8) << 4u8) }
    }
}

} // verus!
