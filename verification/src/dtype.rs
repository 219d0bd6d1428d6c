//! Physical types, fields, flags, element values and the error taxonomy.

use vstd::prelude::*;

verus! {

/// Physical type of a column.
#[derive(Clone, Copy, PartialEq, Eq, Structural, Debug)]
pub enum DataType {
    Binary,
    Int64,
}

/// The operation an error was raised by, for diagnosis.
#[derive(Clone, Copy, PartialEq, Eq, Structural, Debug)]
pub enum Op {
    Append,
    Extend,
    Filter,
    Take,
    Cast,
    Get,
    SingleChunk,
    Arithmetic,
    HashCombine,
    ZipWith,
    Sort,
    GroupBy,
    Unique,
    Reverse,
    Shift,
    Slice,
    NewFromIndex,
    MinMax,
    Hash,
}

/// Error taxonomy of the column core.  Every fallible operation reports the
/// operation it was raised by and the dtypes involved.
#[derive(Clone, Copy, PartialEq, Eq, Structural, Debug)]
pub enum Error {
    /// Two columns of different physical type were combined.
    TypeMismatch { op: Op, left: DataType, right: DataType },
    /// No conversion is defined between the two types.
    CastUnsupported { from: DataType, to: DataType },
    /// A checked index access went beyond the column length.
    OutOfBounds { op: Op, index: usize, len: usize },
    /// Two sequences had to be of one length and were not.
    LengthMismatch { op: Op, expected: usize, got: usize },
    /// The store holds more than one chunk where one was needed.
    MultipleChunks { op: Op },
    /// The operation is not defined for this physical type.
    Unsupported { op: Op, dtype: DataType },
}

/// Column metadata: a name and a physical type.
pub struct Field {
    pub name: String,
    pub dtype: DataType,
}

impl Field {
    pub fn new(name: String, dtype: DataType) -> (r: Field)
        ensures
            r.name == name,
            r.dtype == dtype,
    {
        Field { name, dtype }
    }
}

/// Sortedness flags cached on a store; purely advisory metadata.
#[derive(Clone, Copy, PartialEq, Eq, Structural, Debug)]
pub struct Settings {
    pub sorted_ascending: bool,
    pub sorted_descending: bool,
}

impl Settings {
    /// Flags of a column with no known order.
    pub fn unsorted() -> (r: Settings)
        ensures
            !r.sorted_ascending,
            !r.sorted_descending,
    {
        Settings { sorted_ascending: false, sorted_descending: false }
    }
}

/// A single element read out of a column, type-erased.
#[derive(Debug, PartialEq, Eq)]
pub enum AnyValue {
    Null,
    Binary(Vec<u8>),
    Int64(i64),
}

} // verus!
