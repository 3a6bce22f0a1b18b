//! Field-compression core of QPACK, the header-compression scheme of HTTP/3.
//!
//! The crate is organised bottom-up: prefix-coded integers (`varint`), the
//! static Huffman alphabet (`huffman`), header data types (`types`), the
//! reference-counted dynamic table (`dynamic_table`) and the fixed static
//! table (`table`), the wire forms of instructions and field-line
//! representations (`wire`), and the top-level peer object (`codec`) that
//! plans wire bytes and applies the planned state changes. The laws the
//! whole crate keeps are stated and proved in `laws`.

pub mod codec;
pub mod dynamic_table;
pub mod huffman;
pub mod laws;
pub mod table;
pub mod types;
pub mod varint;
pub mod wire;
