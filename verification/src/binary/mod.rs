//! The native binary encoding.
//!
//! A value is encoded either at the top level ("outer" form) or nested inside a struct,
//! list or nullable value ("inner" form). Strings and bytes take the rest of the input in
//! outer form and carry a `u32` length prefix in inner form; structs and lists nested in
//! inner form carry a `u32` prefix holding the length of their outer form.
pub mod format;
pub mod decode;
pub mod encode;
pub mod laws;
