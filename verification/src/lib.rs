//! Packed sequences of strings: many variable-length segments stored end to
//! end in one buffer, found again through a table of offsets.
pub mod access;
pub mod array;
pub mod buffer;
pub mod iter;
pub mod laws;
pub mod order;
pub mod packed;
pub mod pair;
pub mod raw;
pub mod split;
pub mod strlike;
pub mod text;
pub mod triple;
pub mod utf8;
pub mod vec;

pub use access::ReplaceError;
pub use array::{RawError, Static};
pub use buffer::Buffer;
pub use iter::Iter;
pub use order::{OrdUnit, Order};
pub use pair::StringPair;
pub use split::{IndexOutOfRange, Split, SplitError, SplitRange};
pub use strlike::{DataConcat, OwnsStrData, StrData, StrLike, StrLikeMut};
pub use triple::StringTriple;
pub use vec::Dynamic;
