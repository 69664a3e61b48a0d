//! A JSON codec: a generic serializer that turns typed values into JSON
//! text, and a recursive-descent parser that turns a character stream back
//! into those values, tracking source position for diagnostics.
pub mod chars;
pub mod element;
pub mod json_map;
pub mod laws;
pub mod laws_value;
pub mod marshal;
pub mod unmarshal;

pub use element::{Decimal, Element};
pub use json_map::JsonMap;
pub use marshal::Marshalable;
pub use unmarshal::{UnmarshalError, UnmarshalIter, Unmarshalable, Unmarshaler};
