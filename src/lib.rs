//! Negotiating a natural-language request into SQL that names only tables the
//! database has confirmed.
use vstd::prelude::*;

pub mod text;
pub mod sql;
pub mod conversation;
pub mod oracle;
pub mod llm;
pub mod agent;
pub mod config;
pub mod schema;

verus! {

} // verus!
