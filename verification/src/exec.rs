//! From a parsed query to the filter that the executor applies, and the run of a search over
//! its segment files.

use crate::consts::TIMPSTAMP_FIELD_NAME;
use crate::error::{ErrorKind, MeltError};
use crate::fusion::arrow::Batch;
use crate::schema::MeltSchema;
use crate::query::parser::{query_failure, spec_query};
use crate::query::{ComparisionOperator, LogicOperator, QueryExpr, QueryView};
use vstd::prelude::*;

verus! {

/// `datafusion::logical_expr::Expr`: a filter expression, handed to the executor as it is.
#[verifier::external_type_specification]
#[verifier::external_body]
pub struct ExExpr(datafusion::logical_expr::Expr);

/// The operators of the filter expressions that this library builds.
#[derive(Clone, Copy, Debug, PartialEq, Eq, Structural)]
pub enum BinaryOperator {
    Eq,
    NotEq,
    Lt,
    LtEq,
    Gt,
    GtEq,
    And,
    Or,
}

/// The shape of a filter expression, as far as this library builds them.
pub enum ExprView {
    /// A column, named without a table.
    Column(Seq<char>),
    /// A text literal.
    Text(Seq<char>),
    /// A 64-bit integer literal.
    Int(i64),
    /// Two expressions under an operator.
    Binary(Box<ExprView>, BinaryOperator, Box<ExprView>),
    /// `LIKE`, case-sensitive, not negated, without an escape character: the operand, then the
    /// pattern.
    Like(Box<ExprView>, Box<ExprView>),
}

/// What an `Expr` holds.
pub uninterp spec fn expr_shape(e: datafusion::logical_expr::Expr) -> ExprView;

/// `datafusion::logical_expr::ident`: the column called `name`, which is not split at dots.
#[verifier::external_body]
fn column(name: &str) -> (r: datafusion::logical_expr::Expr)
    ensures
        expr_shape(r) == ExprView::Column(name@),
{
    datafusion::logical_expr::ident(name)
}

/// `datafusion::logical_expr::lit` of a string: a text literal.
#[verifier::external_body]
fn text_literal(value: &str) -> (r: datafusion::logical_expr::Expr)
    ensures
        expr_shape(r) == ExprView::Text(value@),
{
    datafusion::logical_expr::lit(value)
}

/// `datafusion::logical_expr::lit` of an `i64`: an integer literal.
#[verifier::external_body]
fn int_literal(value: i64) -> (r: datafusion::logical_expr::Expr)
    ensures
        expr_shape(r) == ExprView::Int(value),
{
    datafusion::logical_expr::lit(value)
}

/// `datafusion::logical_expr::binary_expr`: `left` and `right` under `op`. It is what `Expr::eq`,
/// `not_eq`, `lt`, `lt_eq`, `gt`, `gt_eq`, `and` and `or` return.
#[verifier::external_body]
fn binary(
    left: datafusion::logical_expr::Expr,
    op: BinaryOperator,
    right: datafusion::logical_expr::Expr,
) -> (r: datafusion::logical_expr::Expr)
    ensures
        expr_shape(r) == ExprView::Binary(
            Box::new(expr_shape(left)),
            op,
            Box::new(expr_shape(right)),
        ),
{
    let operator = match op {
        BinaryOperator::Eq => datafusion::logical_expr::Operator::Eq,
        BinaryOperator::NotEq => datafusion::logical_expr::Operator::NotEq,
        BinaryOperator::Lt => datafusion::logical_expr::Operator::Lt,
        BinaryOperator::LtEq => datafusion::logical_expr::Operator::LtEq,
        BinaryOperator::Gt => datafusion::logical_expr::Operator::Gt,
        BinaryOperator::GtEq => datafusion::logical_expr::Operator::GtEq,
        BinaryOperator::And => datafusion::logical_expr::Operator::And,
        BinaryOperator::Or => datafusion::logical_expr::Operator::Or,
    };
    datafusion::logical_expr::binary_expr(left, operator, right)
}

/// `Expr::like`: `operand LIKE pattern`.
#[verifier::external_body]
fn like(
    operand: datafusion::logical_expr::Expr,
    pattern: datafusion::logical_expr::Expr,
) -> (r: datafusion::logical_expr::Expr)
    ensures
        expr_shape(r) == ExprView::Like(
            Box::new(expr_shape(operand)),
            Box::new(expr_shape(pattern)),
        ),
{
    operand.like(pattern)
}

/// The operator of a comparison that is no pattern match.
pub open spec fn comparison_operator(op: ComparisionOperator) -> BinaryOperator {
    match op {
        ComparisionOperator::Equal => BinaryOperator::Eq,
        ComparisionOperator::NotEqual => BinaryOperator::NotEq,
        ComparisionOperator::GreaterOrEqual => BinaryOperator::GtEq,
        ComparisionOperator::LessOrEqual => BinaryOperator::LtEq,
        ComparisionOperator::Less => BinaryOperator::Lt,
        ComparisionOperator::Greater => BinaryOperator::Gt,
        ComparisionOperator::Match => BinaryOperator::Eq,
    }
}

/// The filter that a query stands for. A comparison compares the column with the literal as
/// text; `~=` is `LIKE` with the literal as the pattern; `and` is conjunction and `or` is
/// disjunction.
pub open spec fn lowered(q: QueryView) -> ExprView
    decreases q,
{
    match q {
        QueryView::Comparison(name, op, value) => if op == ComparisionOperator::Match {
            ExprView::Like(Box::new(ExprView::Column(name)), Box::new(ExprView::Text(value)))
        } else {
            ExprView::Binary(
                Box::new(ExprView::Column(name)),
                comparison_operator(op),
                Box::new(ExprView::Text(value)),
            )
        },
        QueryView::Logical(left, op, right) => ExprView::Binary(
            Box::new(lowered(*left)),
            match op {
                LogicOperator::And => BinaryOperator::And,
                LogicOperator::Or => BinaryOperator::Or,
            },
            Box::new(lowered(*right)),
        ),
    }
}

/// `timestamp op bound`
pub open spec fn time_bound(op: BinaryOperator, bound: i64) -> ExprView {
    ExprView::Binary(
        Box::new(ExprView::Column(TIMPSTAMP_FIELD_NAME@)),
        op,
        Box::new(ExprView::Int(bound)),
    )
}

/// A filter with the time bounds that are present: `e and timestamp >= min_ts and timestamp <=
/// max_ts`.
pub open spec fn with_time_bounds(
    e: ExprView,
    min_ts: Option<i64>,
    max_ts: Option<i64>,
) -> ExprView {
    let from = match min_ts {
        Some(t) => ExprView::Binary(
            Box::new(e),
            BinaryOperator::And,
            Box::new(time_bound(BinaryOperator::GtEq, t)),
        ),
        None => e,
    };
    match max_ts {
        Some(t) => ExprView::Binary(
            Box::new(from),
            BinaryOperator::And,
            Box::new(time_bound(BinaryOperator::LtEq, t)),
        ),
        None => from,
    }
}

/// A parsed query with its time bounds.
#[derive(Debug)]
pub struct Query {
    expr: QueryExpr,
    min_ts: Option<i64>,
    max_ts: Option<i64>,
}

/// A query as mathematics sees it.
pub struct QueryBounds {
    pub expr: QueryView,
    pub min_ts: Option<i64>,
    pub max_ts: Option<i64>,
}

impl View for Query {
    type V = QueryBounds;

    closed spec fn view(&self) -> QueryBounds {
        QueryBounds { expr: self.expr@, min_ts: self.min_ts, max_ts: self.max_ts }
    }
}

impl Query {
    /// Parses `s` and keeps the bounds with it.
    pub fn from_str(s: &str, min_ts: Option<i64>, max_ts: Option<i64>) -> (r: Result<
        Query,
        MeltError,
    >)
        ensures
            match spec_query(s@) {
                Some(tree) => r matches Ok(q) && q@ == (QueryBounds { expr: tree, min_ts, max_ts }),
                None => r matches Err(e) && e.kind == ErrorKind::UnparseableQuery && e.message@
                    == query_failure(s@),
            },
    {
        match QueryExpr::from_str(s) {
            Ok(ops) => Ok(Query { expr: ops, min_ts, max_ts }),
            Err(e) => Err(e),
        }
    }

    pub fn expr(&self) -> (e: &QueryExpr)
        ensures
            e@ == self@.expr,
    {
        &self.expr
    }

    pub fn min_ts(&self) -> (t: Option<i64>)
        ensures
            t == self@.min_ts,
    {
        self.min_ts
    }

    pub fn max_ts(&self) -> (t: Option<i64>)
        ensures
            t == self@.max_ts,
    {
        self.max_ts
    }

    /// The filter of the query: its predicate, and its time bounds where it has them.
    pub fn to_exp(&self, schema: &MeltSchema) -> (r: datafusion::logical_expr::Expr)
        ensures
            expr_shape(r) == with_time_bounds(lowered(self@.expr), self@.min_ts, self@.max_ts),
    {
        let expr = queryexpr_to_expr(&self.expr, schema);
        let expr = match self.min_ts {
            Some(t) => binary(
                expr,
                BinaryOperator::And,
                binary(column(TIMPSTAMP_FIELD_NAME), BinaryOperator::GtEq, int_literal(t)),
            ),
            None => expr,
        };
        let expr = match self.max_ts {
            Some(t) => binary(
                expr,
                BinaryOperator::And,
                binary(column(TIMPSTAMP_FIELD_NAME), BinaryOperator::LtEq, int_literal(t)),
            ),
            None => expr,
        };
        expr
    }
}

/// Lowers a query to a filter expression. The literal is compared as text, whatever the schema
/// says of the column; where the types differ the executor casts.
pub fn queryexpr_to_expr(ops: &QueryExpr, schema: &MeltSchema) -> (r:
    datafusion::logical_expr::Expr)
    ensures
        expr_shape(r) == lowered(ops@),
    decreases ops,
{
    match ops {
        QueryExpr::LogicalOp(left, op, right) => {
            let l = queryexpr_to_expr(left, schema);
            let r = queryexpr_to_expr(right, schema);
            match op {
                LogicOperator::Or => binary(l, BinaryOperator::Or, r),
                LogicOperator::And => binary(l, BinaryOperator::And, r),
            }
        },
        QueryExpr::ComparisonOp(name, op, value) => {
            let field = column(name.as_str());
            let literal = text_literal(value.as_str());
            match op {
                ComparisionOperator::Equal => binary(field, BinaryOperator::Eq, literal),
                ComparisionOperator::NotEqual => binary(field, BinaryOperator::NotEq, literal),
                ComparisionOperator::GreaterOrEqual => binary(field, BinaryOperator::GtEq, literal),
                ComparisionOperator::LessOrEqual => binary(field, BinaryOperator::LtEq, literal),
                ComparisionOperator::Less => binary(field, BinaryOperator::Lt, literal),
                ComparisionOperator::Greater => binary(field, BinaryOperator::Gt, literal),
                ComparisionOperator::Match => like(field, literal),
            }
        },
    }
}

/// The alias under which the executor reads one segment file at a time.
pub const SEARCH_ALIAS: &'static str = "t";

/// The state of one search as mathematics sees it.
pub struct SearchRunView {
    pub files: Seq<Seq<char>>,
    /// How many files have been searched.
    pub done: nat,
    pub found: Seq<Batch>,
    /// Whether a file was handed out and what was found in it has not come back.
    pub alias_held: bool,
    /// Whether the run has ended on a failure.
    pub failed: bool,
}

/// The run of one search over its segment files. The caller takes a file from `next_file`,
/// reads it under the alias, applies the filter and releases the alias, whether the filter
/// failed or not. Then it hands what it found to `accept`, or calls `fail`. A failure ends the
/// run, and a run that failed has found nothing.
pub struct SearchRun {
    files: Vec<String>,
    done: usize,
    found: Vec<Batch>,
    alias_held: bool,
    failed: bool,
}

impl View for SearchRun {
    type V = SearchRunView;

    closed spec fn view(&self) -> SearchRunView {
        SearchRunView {
            files: Seq::new(self.files@.len(), |i: int| self.files@[i]@),
            done: self.done as nat,
            found: self.found@,
            alias_held: self.alias_held,
            failed: self.failed,
        }
    }
}

/// What was found in each file, file after file.
pub open spec fn joined(results: Seq<Seq<Batch>>) -> Seq<Batch>
    decreases results.len(),
{
    if results.len() == 0 {
        Seq::empty()
    } else {
        joined(results.drop_last()) + results.last()
    }
}

/// A search over segments in a row finds what the searches over the parts find, in a row: the
/// result over all segments is the concatenation of the results per segment, in their order.
pub proof fn lemma_search_concatenates(a: Seq<Seq<Batch>>, b: Seq<Seq<Batch>>)
    ensures
        joined(a + b) == joined(a) + joined(b),
    decreases b.len(),
{
    if b.len() == 0 {
        assert(a + b =~= a);
        assert(joined(a) + joined(b) =~= joined(a));
    } else {
        assert((a + b).drop_last() =~= a + b.drop_last());
        assert((a + b).last() == b.last());
        lemma_search_concatenates(a, b.drop_last());
        assert((joined(a) + joined(b.drop_last())) + b.last() =~= joined(a) + (joined(
            b.drop_last(),
        ) + b.last()));
    }
}

impl SearchRun {
    #[verifier::type_invariant]
    spec fn well_formed(self) -> bool {
        self.done <= self.files@.len() && (self.alias_held ==> self.done < self.files@.len()
            && !self.failed)
    }

    /// A run that has searched nothing yet.
    pub fn new(files: Vec<String>) -> (run: SearchRun)
        ensures
            run@ == (SearchRunView {
                files: Seq::new(files@.len(), |i: int| files@[i]@),
                done: 0,
                found: Seq::empty(),
                alias_held: false,
                failed: false,
            }),
    {
        SearchRun { files, done: 0, found: Vec::new(), alias_held: false, failed: false }
    }

    /// Whether the run has ended on a failure.
    pub fn has_failed(&self) -> (b: bool)
        ensures
            b == self@.failed,
    {
        self.failed
    }

    /// The file to search next: the files are searched in their order, one at a time. `None`
    /// once all are searched, after a failure, and while the alias is held.
    pub fn next_file(&mut self) -> (r: Option<String>)
        ensures
            old(self)@.done <= old(self)@.files.len(),
            match r {
                Some(file) => {
                    &&& !old(self)@.failed
                    &&& !old(self)@.alias_held
                    &&& old(self)@.done < old(self)@.files.len()
                    &&& file@ == old(self)@.files[old(self)@.done as int]
                    &&& final(self)@ == (SearchRunView { alias_held: true, ..old(self)@ })
                },
                None => {
                    &&& final(self)@ == old(self)@
                    &&& old(self)@.failed || old(self)@.alias_held || old(self)@.done == old(
                        self,
                    )@.files.len()
                },
            },
    {
        proof {
            use_type_invariant(&*self);
        }
        if self.failed || self.alias_held || self.done >= self.files.len() {
            None
        } else {
            let file = self.files[self.done].clone();
            self.alias_held = true;
            Some(file)
        }
    }

    /// Takes what was found in the file that `next_file` handed out, after the alias is
    /// released: it is put behind what was found before. Where no file is out, nothing changes
    /// and the answer is `false`.
    pub fn accept(&mut self, batches: Vec<Batch>) -> (taken: bool)
        ensures
            taken == old(self)@.alias_held,
            taken ==> final(self)@ == (SearchRunView {
                done: old(self)@.done + 1,
                found: old(self)@.found + batches@,
                alias_held: false,
                ..old(self)@
            }),
            !taken ==> final(self)@ == old(self)@,
    {
        proof {
            use_type_invariant(&*self);
        }
        if self.alias_held && self.done < self.files.len() {
            let done = self.done + 1;
            let mut batches = batches;
            let ghost before = self.found@;
            let ghost added = batches@;
            let mut found = Vec::new();
            std::mem::swap(&mut found, &mut self.found);
            found.append(&mut batches);
            self.found = found;
            self.alias_held = false;
            self.done = done;
            proof {
                assert(self.found@ =~= before + added);
            }
            true
        } else {
            false
        }
    }

    /// Ends the run on a failure, after the alias is released: no further file is handed out,
    /// and what was found is dropped.
    pub fn fail(&mut self)
        ensures
            final(self)@ == (SearchRunView {
                found: Seq::empty(),
                alias_held: false,
                failed: true,
                ..old(self)@
            }),
    {
        proof {
            use_type_invariant(&*self);
        }
        self.found = Vec::new();
        self.alias_held = false;
        self.failed = true;
    }

    /// What was found in all files, in the order of the files. `None` before all files are
    /// searched and after a failure.
    pub fn finish(self) -> (found: Option<Vec<Batch>>)
        ensures
            match found {
                Some(batches) => !self@.failed && self@.done == self@.files.len() && batches@
                    == self@.found,
                None => self@.failed || self@.done < self@.files.len(),
            },
    {
        proof {
            use_type_invariant(&self);
        }
        if self.failed || self.done < self.files.len() {
            None
        } else {
            Some(self.found)
        }
    }
}

} // verus!
