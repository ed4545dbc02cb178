//! A personal knowledge-base engine: canonical document identities, the link
//! graph of a vault with its backlinks, a metadata query language, and the
//! discrete parts of relevance and authority ranking.

pub mod path;
pub mod link;
pub mod document;
pub mod vault;
pub mod query;
pub mod rank;
pub mod search;
pub mod cli;
