//! An in-memory, column-oriented analytical engine: tables of equal-length
//! 32-bit integer columns, four kinds of column indexes maintained under
//! inserts and bulk loads, range selection, gathering, element-wise
//! arithmetic, aggregation, equijoins, and a compact textual query
//! language. Every operation carries a proved contract; `laws` states the
//! cross-cutting guarantees.

pub mod client_context;
pub mod column;
pub mod command;
pub mod db;
pub mod engine;
pub mod errors;
pub mod laws;
pub mod message;
pub mod model;
pub mod parse;
pub mod persist;
pub mod render;
pub mod strmap;
pub mod table;
pub mod text;
pub mod threads;
