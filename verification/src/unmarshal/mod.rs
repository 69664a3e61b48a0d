pub mod bool;
pub mod decimal;
pub mod element;
pub mod i64;
pub mod list;
pub mod object;
pub mod null;
pub mod string;
pub mod unmarshal_iter;
pub mod unmarshaler;
pub mod unmarshalable;

pub use unmarshal_iter::UnmarshalIter;
pub use unmarshaler::Unmarshaler;
pub use unmarshalable::{UnmarshalError, Unmarshalable};
