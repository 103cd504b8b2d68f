//! A source-analysis front end for the IFS Cloud language family: a lexer and
//! recursive-descent parser producing a typed syntax tree, and a symbol index
//! that answers definition, reference and search queries over it.

pub mod filtering;
pub mod index;
pub mod parser;
pub mod sorting;
pub mod static_analysis;
pub mod text;
pub mod utils;
