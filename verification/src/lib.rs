//! Storage-facing core of an embeddable relational engine: scalar values and
//! their order-preserving key encoding, the row codec, the key namespace of
//! the table codec, the range algebra that turns predicates into index seek
//! bounds, and the operators that stream rows through a plan.

pub mod arena;
pub mod bitset;
pub mod bytes;
pub mod cast;
pub mod catalog;
pub mod combining;
pub mod create_index;
pub mod decimal;
pub mod decimal_laws;
pub mod detacher;
pub mod errors;
pub mod eval;
pub mod expression;
pub mod index;
pub mod join;
pub mod key_laws;
pub mod memcomparable;
pub mod null_laws;
pub mod planner;
pub mod pushdown;
pub mod range;
pub mod range_laws;
pub mod range_merge;
pub mod range_order;
pub mod raw;
pub mod row_laws;
pub mod scan_order;
pub mod table_codec;
pub mod text;
pub mod text_order;
pub mod time;
pub mod tuple;
pub mod types;
pub mod value;
