pub mod block;
pub mod doc;
pub mod field;
pub mod inline;
pub mod list;
pub mod parser;
pub mod pmwiki;
pub mod scan;
pub mod source;
pub mod steps;

pub mod prelude;
pub mod shape;
pub mod laws;
pub mod markup;
