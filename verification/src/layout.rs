//! The column layout of a data row: four leading columns of fixed meaning,
//! then one score column for each subject of the faculty's header.

use vstd::prelude::*;

verus! {

/// What a column of a data row holds.
#[derive(Clone, Copy, Debug, PartialEq, Eq, Structural)]
pub enum Field {
    /// The program code, taken as it stands.
    Id,
    /// The program name, which may carry annotation markers.
    Name,
    /// The enrollment quota of the regular track.
    Regular,
    /// The enrollment quota of the special track.
    Special,
    /// The minimum score in the subject at this position of the subject list.
    Score(usize),
}

/// The number of leading columns whose meaning does not depend on the header.
pub const FIXED_COLUMNS: usize = 4;

/// The field of column `column` in a table with `subject_count` subjects, or
/// `None` for a column beyond the last subject.
pub open spec fn field_of(column: int, subject_count: int) -> Option<Field> {
    if column == 0 {
        Some(Field::Id)
    } else if column == 1 {
        Some(Field::Name)
    } else if column == 2 {
        Some(Field::Regular)
    } else if column == 3 {
        Some(Field::Special)
    } else if FIXED_COLUMNS <= column < FIXED_COLUMNS + subject_count {
        Some(Field::Score((column - FIXED_COLUMNS) as usize))
    } else {
        None
    }
}

/// The field that the cell at `column` fills, given the number of subjects
/// discovered for the table. A cell with no field is passed over.
pub fn field_at(column: usize, subject_count: usize) -> (r: Option<Field>)
    ensures
        r == field_of(column as int, subject_count as int),
{
    if column == 0 {
        Some(Field::Id)
    } else if column == 1 {
        Some(Field::Name)
    } else if column == 2 {
        Some(Field::Regular)
    } else if column == 3 {
        Some(Field::Special)
    } else if column - FIXED_COLUMNS < subject_count {
        Some(Field::Score(column - FIXED_COLUMNS))
    } else {
        None
    }
}

/// The layout assigns each field to exactly one column: the fixed fields to
/// the first four, and subject `j` to column `j + 4`.
pub proof fn lemma_layout_is_positional(column: int, subject_count: int)
    requires
        0 <= column,
        0 <= subject_count <= usize::MAX,
    ensures
        field_of(column, subject_count) is Some <==> column < FIXED_COLUMNS + subject_count,
        field_of(column, subject_count) matches Some(Field::Score(j)) ==> j == column
            - FIXED_COLUMNS && j < subject_count,
        forall|other: int|
            0 <= other && other != column && field_of(column, subject_count) is Some
                ==> field_of(other, subject_count) != field_of(column, subject_count),
{
}

} // verus!
