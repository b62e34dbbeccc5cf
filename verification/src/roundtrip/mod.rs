//! Reading back what was written: the proofs that the parser inverts the
//! serializer.

pub mod attr_text;
pub mod document;
pub mod lines;
pub mod node_id;
pub mod ordering;
pub mod parse_write;
pub mod parsed;
pub mod rewrite;
pub mod spelled;
pub mod statement;
pub mod tokens;
