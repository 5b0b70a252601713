pub mod api;
pub mod chars;
pub mod errors;
pub mod parser;
pub mod render;
pub mod roundtrip;
pub mod strutil;
pub mod tree;
