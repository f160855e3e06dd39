//! Null-aware aggregation kernels over columnar arrays: wrapping and
//! overflow-checked sums, minimum and maximum, bitwise and boolean folds,
//! on plain and dictionary-encoded arrays.

pub mod native;
pub mod nulls;
pub mod model;
pub mod array;
pub mod sum;
pub mod bit;
pub mod minmax;
pub mod dictionary;
pub mod bytes;
pub mod boolean;
pub mod laws;
pub mod simd;

pub use array::PrimitiveArray;
pub use bit::{bit_and, bit_operation, bit_or, bit_xor};
pub use boolean::{bool_and, bool_or, max_boolean, min_boolean};
pub use bytes::{max_binary, max_string, min_binary, min_string, BinaryArray, StringArray};
pub use dictionary::{max_array, min_array, sum_array, sum_array_checked, DictionaryArray};
pub use minmax::{max, min};
pub use native::{BitOp, NativeInt};
pub use sum::{sum, sum_checked, AggregateError};
