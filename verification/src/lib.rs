//! Helpers around SQL databases: regrouping of joined rows into parents with
//! their children, page arithmetic, dates as text, and the database URLs of
//! an environment.
use vstd::prelude::*;

pub mod databases;
pub mod date_formatters;
pub mod date_parsers;
pub mod grouping;
pub mod grouping_proofs;
pub mod one_to_many;
pub mod pagination;
pub mod text;
pub mod utils;

verus! {

/// The name of the variable that holds the URL of the application's own
/// database.
pub const DATABASE_URL: &'static str = "DATABASE_URL";

} // verus!
