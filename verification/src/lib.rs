//! Ingestion pipeline for building tabular datasets from SPARQL endpoints:
//! directive extraction from query comments, algebraic pagination rewriting,
//! the paginated fetch protocol, cross-page schema unification, and the
//! staleness catalog that gates rebuilds.
use vstd::prelude::*;

pub mod catalog;
pub mod duckdb_util;
pub mod errors;
pub mod pagination;
pub mod sparql_query_metadata;
pub mod sparql_query_modifier;
pub mod sparql_result_to_duckdb;
pub mod sql;
pub mod text;

verus! {

/// Directory configuration for a build run: where the query sources live and
/// where built artifacts go.
pub struct Args {
    pub queries_dir: String,
    pub dist_dir: String,
}

impl Args {
    pub fn new(queries_dir: String, dist_dir: String) -> (r: Args)
        ensures
            r.queries_dir@ == queries_dir@,
            r.dist_dir@ == dist_dir@,
    {
        Args { queries_dir, dist_dir }
    }

    /// Directory holding the SPARQL query sources for the ingestion layer.
    pub fn layer1_queries_dir(&self) -> (r: String)
        ensures
            r@ == self.queries_dir@ + "/layer1"@,
    {
        vstd::string::StringExecFns::concat(self.queries_dir.clone(), "/layer1")
    }

    /// Directory holding the SQL transform sources for the derived layer.
    pub fn layer2_queries_dir(&self) -> (r: String)
        ensures
            r@ == self.queries_dir@ + "/layer2"@,
    {
        vstd::string::StringExecFns::concat(self.queries_dir.clone(), "/layer2")
    }
}

} // verus!
