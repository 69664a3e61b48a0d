pub mod bool;
pub mod element;
pub mod list;
pub mod object;
pub mod decimal;
pub mod i64;
pub mod marshalable;
pub mod null;
pub mod string;

pub use marshalable::Marshalable;
