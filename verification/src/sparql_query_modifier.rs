//! Pagination rewriting: a query is parsed into its algebraic form, the
//! outermost result-shaping node is located, and a bounded slice with the
//! requested length and offset is substituted or injected at the top. Only
//! slice, projection and de-duplication roots can be paginated; any other
//! top-level shape is rejected before any request is issued.
use vstd::prelude::*;
use crate::errors::BuildError;

verus! {

#[verifier::external_type_specification]
#[verifier::external_body]
pub struct ExQuery(spargebra::Query);

/// The top-level result shape of a parsed query, as far as pagination
/// reads it.
#[derive(PartialEq, Eq, Structural, Clone, Copy)]
pub enum QueryShape {
    /// A bounded slice: an author-written limit/offset node.
    Slice { start: usize, length: Option<usize> },
    /// A projection with no enclosing slice.
    Project,
    /// A de-duplication with no enclosing slice.
    Distinct,
    /// A select query with some other root node.
    OtherPattern,
    /// A construct, describe or ask query.
    NotSelect,
}

/// The top-level shape a parsed query exposes.
pub uninterp spec fn shape_of(q: spargebra::Query) -> QueryShape;

/// What parsing a query text yields: nothing on a syntax error, else the
/// top-level shape of the parsed tree. The parser is deterministic on the
/// text, with no base IRI supplied.
pub uninterp spec fn parsed_shape(s: Seq<char>) -> Option<QueryShape>;

/// A shape into which a bounded slice can be substituted or injected.
pub open spec fn paginable(s: QueryShape) -> bool {
    s matches QueryShape::Slice { .. } || s == QueryShape::Project || s == QueryShape::Distinct
}

/// Relies on spargebra's SPARQL parser, deterministic on the query text;
/// the error case carries the parser's message.
#[verifier::external_body]
fn parse_query_text(query_str: &str) -> (r: Result<spargebra::Query, String>)
    ensures
        (r matches Ok(q) ==> parsed_shape(query_str@) == Some(shape_of(q))),
        (r is Ok <==> parsed_shape(query_str@) is Some),
{
    match spargebra::SparqlParser::new().parse_query(query_str) {
        Ok(q) => Ok(q),
        Err(e) => Err(e.to_string()),
    }
}

/// Relies on spargebra's algebra: reads which variant stands at the root
/// of the parsed query, and the bounds of a root slice.
#[verifier::external_body]
fn top_shape(q: &spargebra::Query) -> (r: QueryShape)
    ensures
        r == shape_of(*q),
{
    match q {
        spargebra::Query::Select { pattern, .. } => match pattern {
            spargebra::algebra::GraphPattern::Slice { start, length, .. } => QueryShape::Slice {
                start: *start,
                length: *length,
            },
            spargebra::algebra::GraphPattern::Project { .. } => QueryShape::Project,
            spargebra::algebra::GraphPattern::Distinct { .. } => QueryShape::Distinct,
            _ => QueryShape::OtherPattern,
        },
        _ => QueryShape::NotSelect,
    }
}

/// Relies on spargebra's Slice variant: overwrites the bounds of the
/// root slice in place, leaving its inner pattern as it was.
#[verifier::external_body]
fn overwrite_top_slice(q: &mut spargebra::Query, new_limit: usize, new_offset: usize)
    requires
        shape_of(*old(q)) matches QueryShape::Slice { .. },
    ensures
        shape_of(*final(q)) == (QueryShape::Slice {
            start: new_offset,
            length: Some(new_limit),
        }),
{
    if let spargebra::Query::Select {
        pattern: spargebra::algebra::GraphPattern::Slice { start, length, .. },
        ..
    } = q {
        *start = new_offset;
        *length = Some(new_limit);
    }
}

/// Relies on spargebra's algebra: wraps the root pattern in a new slice
/// node with the given bounds, leaving the inner pattern unchanged.
#[verifier::external_body]
fn wrap_top_slice(q: &mut spargebra::Query, new_limit: usize, new_offset: usize)
    requires
        shape_of(*old(q)) == QueryShape::Project || shape_of(*old(q)) == QueryShape::Distinct,
    ensures
        shape_of(*final(q)) == (QueryShape::Slice {
            start: new_offset,
            length: Some(new_limit),
        }),
{
    if let spargebra::Query::Select { pattern, .. } = q {
        *pattern = spargebra::algebra::GraphPattern::Slice {
            length: Some(new_limit),
            start: new_offset,
            inner: Box::new(pattern.clone()),
        };
    }
}

/// Rewrites a query so that it requests exactly a bounded slice of
/// `new_limit` rows starting at `new_offset`: an existing root slice has
/// its bounds overwritten (any author-written limit/offset is deliberately
/// superseded), a projection or de-duplication root is wrapped in a new
/// slice, and every other shape is rejected with `UnsupportedQueryShape`.
/// A text that does not parse is rejected with `QueryParseError`.
pub fn rewrite_query_limit_offset(query_str: &str, new_limit: usize, new_offset: usize) -> (r:
    Result<spargebra::Query, BuildError>)
    ensures
        (r matches Ok(q) ==> shape_of(q) == (QueryShape::Slice {
            start: new_offset,
            length: Some(new_limit),
        })),
        (r is Ok <==> (parsed_shape(query_str@) matches Some(s) && paginable(s))),
        (r matches Err(e) && e matches BuildError::QueryParseError(_)) <==> parsed_shape(
            query_str@,
        ) is None,
        (r matches Err(e) && e matches BuildError::UnsupportedQueryShape) <==> (parsed_shape(
            query_str@,
        ) matches Some(s) && !paginable(s)),
        (r matches Err(e) ==> (e matches BuildError::QueryParseError(_) || e
            matches BuildError::UnsupportedQueryShape)),
{
    let mut q = match parse_query_text(query_str) {
        Ok(q) => q,
        Err(msg) => {
            return Err(BuildError::QueryParseError(msg));
        },
    };
    let shape = top_shape(&q);
    match shape {
        QueryShape::Slice { .. } => {
            overwrite_top_slice(&mut q, new_limit, new_offset);
            Ok(q)
        },
        QueryShape::Project => {
            wrap_top_slice(&mut q, new_limit, new_offset);
            Ok(q)
        },
        QueryShape::Distinct => {
            wrap_top_slice(&mut q, new_limit, new_offset);
            Ok(q)
        },
        QueryShape::OtherPattern => Err(BuildError::UnsupportedQueryShape),
        QueryShape::NotSelect => Err(BuildError::UnsupportedQueryShape),
    }
}

} // verus!
