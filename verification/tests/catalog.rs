use melt::meta::{FileMeta, MetaService};

fn file(segment: &str, min: i64, max: i64) -> FileMeta {
    FileMeta::new("2024-01-01-00".to_string(), segment.to_string(), min, max)
}

fn segments(files: &[FileMeta]) -> Vec<String> {
    files.iter().map(|f| f.segment().to_string()).collect()
}

#[test]
fn new_catalog_is_empty() {
    let meta = MetaService::new();
    assert!(meta.query_files("t", None, None).is_empty());
}

#[test]
fn descriptor_keeps_what_it_was_made_of() {
    let f = FileMeta::new("p".to_string(), "s".to_string(), 3, 9);
    assert_eq!(f.partition(), "p");
    assert_eq!(f.segment(), "s");
    assert_eq!(f.min_timestamp(), 3);
    assert_eq!(f.max_timestamp(), 9);
    assert_eq!(f.duplicate(), f);
}

#[test]
fn range_query_returns_what_intersects() {
    let mut meta = MetaService::new();
    meta.add_file("t", file("before", 0, 99));
    meta.add_file("t", file("touches_start", 50, 100));
    meta.add_file("t", file("inside", 120, 180));
    meta.add_file("t", file("covers", 0, 1000));
    meta.add_file("t", file("touches_end", 200, 300));
    meta.add_file("t", file("after", 201, 300));
    meta.add_file("other", file("elsewhere", 150, 150));
    let found = meta.query_files("t", Some(100), Some(200));
    assert_eq!(
        segments(&found),
        vec!["touches_start", "inside", "covers", "touches_end"]
    );
}

#[test]
fn absent_bound_excludes_nothing() {
    let mut meta = MetaService::new();
    meta.add_file("t", file("a", 0, 10));
    meta.add_file("t", file("b", 20, 30));
    meta.add_file("t", file("c", 40, 50));
    assert_eq!(segments(&meta.query_files("t", None, None)), vec!["a", "b", "c"]);
    assert_eq!(segments(&meta.query_files("t", Some(25), None)), vec!["b", "c"]);
    assert_eq!(segments(&meta.query_files("t", None, Some(25))), vec!["a", "b"]);
    assert_eq!(segments(&meta.query_files("t", Some(31), Some(39))), Vec::<String>::new());
}

#[test]
fn tables_do_not_mix_and_order_is_kept() {
    let mut meta = MetaService::new();
    meta.add_file("x", file("x1", 5, 5));
    meta.add_file("y", file("y1", 5, 5));
    meta.add_file("x", file("x2", 1, 1));
    meta.add_file("x", file("x3", 9, 9));
    assert_eq!(segments(&meta.query_files("x", None, None)), vec!["x1", "x2", "x3"]);
    assert_eq!(segments(&meta.query_files("y", None, None)), vec!["y1"]);
    assert!(meta.query_files("z", None, None).is_empty());
}
