//! The query language: its trees, its grammar and its text.

use crate::error::MeltError;
use vstd::prelude::*;

pub mod parser;
pub mod printer;

verus! {

/// How a field is compared with a literal.
#[derive(Clone, Copy, Debug, PartialEq, Eq, Structural)]
pub enum ComparisionOperator {
    Equal,
    NotEqual,
    GreaterOrEqual,
    LessOrEqual,
    Less,
    Greater,
    Match,
}

/// How two conditions are joined.
#[derive(Clone, Copy, Debug, PartialEq, Eq, Structural)]
pub enum LogicOperator {
    Or,
    And,
}

/// A query as mathematics sees it.
pub enum QueryView {
    Comparison(Seq<char>, ComparisionOperator, Seq<char>),
    Logical(Box<QueryView>, LogicOperator, Box<QueryView>),
}

/// A parsed query: a comparison of a field with a literal, or two queries joined.
#[derive(Debug, PartialEq, Eq)]
pub enum QueryExpr {
    ComparisonOp(String, ComparisionOperator, String),
    LogicalOp(Box<QueryExpr>, LogicOperator, Box<QueryExpr>),
}

/// The view of a query.
pub open spec fn query_view(q: QueryExpr) -> QueryView
    decreases q,
{
    match q {
        QueryExpr::ComparisonOp(name, op, value) => QueryView::Comparison(name@, op, value@),
        QueryExpr::LogicalOp(left, op, right) => QueryView::Logical(
            Box::new(query_view(*left)),
            op,
            Box::new(query_view(*right)),
        ),
    }
}

impl View for QueryExpr {
    type V = QueryView;

    open spec fn view(&self) -> QueryView {
        query_view(*self)
    }
}

impl QueryExpr {
    /// Parses a query string.
    pub fn from_str(s: &str) -> (r: Result<QueryExpr, MeltError>)
        ensures
            parser::is_parsed(s@, r),
    {
        parser::parse_query(s)
    }
}

} // verus!
