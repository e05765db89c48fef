//! JSON text: string escaping and tokenizing.
pub mod base64_text;
pub mod escape;
pub mod tokenizer;
pub mod account_id;
pub mod encoder;
pub mod decoder;
pub mod laws;
pub mod roundtrip;
