//! Bidirectional converter between a structured document value model
//! (null, boolean, number, string, array, string-keyed object) and the
//! dynamic value model of an embedded scripting runtime (nil, boolean,
//! integer, float, string, associative table, plus host-only values).
//!
//! `codec::encode` and `codec::decode` carry exact contracts against the
//! specification-level `codec::enc` and `codec::dec`; `laws` states and
//! proves what a round trip preserves and exactly how decoding fails.

pub mod codec;
pub mod laws;
pub mod text;
pub mod value;

pub use codec::decode;
pub use codec::encode;
pub use text::format_int;
pub use value::ConvertError;
pub use value::Document;
pub use value::Dynamic;
pub use value::HostKind;
pub use value::Key;
pub use value::Num;
