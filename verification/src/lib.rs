//! A small blog, verified: the tree of text fragments from which documents
//! are composed, markdown documents with a header, and the pages of the
//! site as text.
pub mod articles;
pub mod header;
pub mod md_ex;
pub mod node;
pub mod node_laws;
pub mod site;
pub mod text;
