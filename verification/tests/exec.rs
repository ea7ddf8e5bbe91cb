use datafusion::logical_expr::{and, ident, lit, or, Expr};
use melt::exec::{queryexpr_to_expr, Query};
use melt::fusion::arrow::Batch;
use melt::fusion::recordbatch::recordbatch_to_jsons;
use melt::query::{ComparisionOperator, LogicOperator, QueryExpr};
use melt::schema::MeltSchema;
use melt::utils::json::decode;
use std::sync::Arc;

fn empty() -> MeltSchema {
    MeltSchema::new(vec![])
}

fn cmp(name: &str, op: ComparisionOperator, value: &str) -> QueryExpr {
    QueryExpr::ComparisonOp(name.to_string(), op, value.to_string())
}

fn build_tests_recordbatch() -> Batch {
    let schema = Arc::new(arrow_schema::Schema::new(vec![
        arrow_schema::Field::new("a", arrow_schema::DataType::Utf8, false),
        arrow_schema::Field::new("b", arrow_schema::DataType::Int64, false),
    ]));
    let batch = arrow_array::RecordBatch::try_new(
        schema,
        vec![
            Arc::new(arrow_array::StringArray::from(vec!["a", "b", "c", "d"])),
            Arc::new(arrow_array::Int64Array::from(vec![1, 10, 10, 100])),
        ],
    )
    .unwrap();
    Batch { inner: batch }
}

fn run(expr: Expr, batch: &Batch) -> Vec<Batch> {
    let runtime = tokio::runtime::Builder::new_current_thread().build().unwrap();
    let found = runtime.block_on(async {
        let ctx = datafusion::execution::context::SessionContext::new();
        ctx.register_batch("t", batch.inner.clone()).unwrap();
        let df = ctx.table("t").await.unwrap();
        df.filter(expr).unwrap().collect().await.unwrap()
    });
    found.into_iter().map(|inner| Batch { inner }).collect()
}

fn search(text: &str, min_ts: Option<i64>, max_ts: Option<i64>) -> String {
    let batch = build_tests_recordbatch();
    let query = Query::from_str(text, min_ts, max_ts).unwrap();
    let found = run(query.to_exp(&empty()), &batch);
    let refs: Vec<&Batch> = found.iter().collect();
    let rows = recordbatch_to_jsons(&refs).unwrap();
    let names: Vec<String> = rows
        .iter()
        .map(|r| match melt::utils::json::get_member(r, "a") {
            Some(melt::utils::json::Json::String(s)) => s.clone(),
            other => panic!("no text under a: {:?}", other),
        })
        .collect();
    names.join(",")
}

#[test]
fn test_name() {
    let batch = build_tests_recordbatch();
    let left = cmp("b", ComparisionOperator::Equal, "a");
    let right = cmp("a", ComparisionOperator::Equal, "a");
    let ops = QueryExpr::LogicalOp(Box::new(left), LogicOperator::Or, Box::new(right));
    let expr = queryexpr_to_expr(&ops, &empty());
    assert_eq!(
        expr,
        or(ident("b").eq(lit("a")), ident("a").eq(lit("a")))
    );
    let found = run(expr, &batch);
    let refs: Vec<&Batch> = found.iter().collect();
    let rows = recordbatch_to_jsons(&refs).unwrap();
    println!("{:?}", rows);
    assert_eq!(rows, vec![decode(br#"{"a":"a","b":1}"#).unwrap()]);
}

#[test]
fn comparisons_lower_to_the_operator_of_the_same_meaning() {
    let field = || ident("x.y");
    let value = || lit("7");
    let cases = [
        (ComparisionOperator::Equal, field().eq(value())),
        (ComparisionOperator::NotEqual, field().not_eq(value())),
        (ComparisionOperator::GreaterOrEqual, field().gt_eq(value())),
        (ComparisionOperator::LessOrEqual, field().lt_eq(value())),
        (ComparisionOperator::Less, field().lt(value())),
        (ComparisionOperator::Greater, field().gt(value())),
        (ComparisionOperator::Match, field().like(value())),
    ];
    for (op, expected) in cases {
        assert_eq!(queryexpr_to_expr(&cmp("x.y", op, "7"), &empty()), expected);
    }
}

#[test]
fn and_lowers_to_conjunction_and_or_to_disjunction() {
    let l = cmp("a", ComparisionOperator::Equal, "1");
    let r = cmp("b", ComparisionOperator::Less, "2");
    let both = QueryExpr::LogicalOp(Box::new(l), LogicOperator::And, Box::new(r));
    assert_eq!(
        queryexpr_to_expr(&both, &empty()),
        and(ident("a").eq(lit("1")), ident("b").lt(lit("2")))
    );
    let l = cmp("a", ComparisionOperator::Equal, "1");
    let r = cmp("b", ComparisionOperator::Less, "2");
    let either = QueryExpr::LogicalOp(Box::new(l), LogicOperator::Or, Box::new(r));
    assert_eq!(
        queryexpr_to_expr(&either, &empty()),
        or(ident("a").eq(lit("1")), ident("b").lt(lit("2")))
    );
}

#[test]
fn time_bounds_are_conjoined() {
    let base = || ident("a").eq(lit("1"));
    let from = || ident("timestamp").gt_eq(lit(100i64));
    let to = || ident("timestamp").lt_eq(lit(200i64));
    let exp = |min, max| Query::from_str("a==1", min, max).unwrap().to_exp(&empty());
    assert_eq!(exp(None, None), base());
    assert_eq!(exp(Some(100), None), base().and(from()));
    assert_eq!(exp(None, Some(200)), base().and(to()));
    assert_eq!(exp(Some(100), Some(200)), base().and(from()).and(to()));
    let q = Query::from_str("a==1", Some(100), None).unwrap();
    assert_eq!(q.min_ts(), Some(100));
    assert_eq!(q.max_ts(), None);
    assert_eq!(q.expr(), &cmp("a", ComparisionOperator::Equal, "1"));
}

#[test]
fn a_query_that_is_none_is_refused() {
    let err = Query::from_str("a==", None, None).unwrap_err();
    assert_eq!(err.kind, melt::error::ErrorKind::UnparseableQuery);
}

#[test]
fn filters_select_rows() {
    assert_eq!(search("b==10", None, None), "b,c");
    assert_eq!(search("b!=10", None, None), "a,d");
    assert_eq!(search("b>=10", None, None), "b,c,d");
    assert_eq!(search("b<10", None, None), "a");
    assert_eq!(search("b>10 or a==a", None, None), "a,d");
    assert_eq!(search("b>=10 and b<=10", None, None), "b,c");
    assert_eq!(search("(a==a or a==b) and b==1", None, None), "a");
    assert_eq!(search("a~=\"%\"", None, None), "a,b,c,d");
    assert_eq!(search("a~=b", None, None), "b");
}
