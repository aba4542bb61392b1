use rag_rs::index::{IndexError, TableAction, TableInfo, TableMode};
use rag_rs::ingest::{check_embeddings, plan_ingestion, IngestError};

fn strings(v: &[&str]) -> Vec<String> {
    v.iter().map(|s| s.to_string()).collect()
}

#[test]
fn one_vector_of_the_right_length_per_chunk_passes() {
    assert_eq!(check_embeddings(3, &vec![4, 4, 4], 4), Ok(()));
    assert_eq!(check_embeddings(0, &vec![], 4), Ok(()));
}

#[test]
fn vector_count_must_match_chunk_count() {
    assert_eq!(
        check_embeddings(3, &vec![4, 4], 4),
        Err(IngestError::CountMismatch { chunks: 3, vectors: 2 })
    );
}

#[test]
fn first_vector_of_wrong_length_is_named() {
    assert_eq!(
        check_embeddings(3, &vec![4, 5, 6], 4),
        Err(IngestError::DimensionMismatch { index: 1, expected: 4, actual: 5 })
    );
}

#[test]
fn ingestion_assigns_ids_in_chunk_order() {
    let chunks = strings(&["alpha", "beta", "gamma"]);
    let plan = plan_ingestion(&chunks, &vec![2, 2, 2], None, TableMode::Overwrite, 2).unwrap();
    assert_eq!(plan.action, TableAction::Create);
    assert_eq!(plan.table, TableInfo { dimension: 2, rows: 3 });
    let ids: Vec<i32> = plan.rows.iter().map(|r| r.id).collect();
    let texts: Vec<String> = plan.rows.iter().map(|r| r.text.clone()).collect();
    assert_eq!(ids, vec![1, 2, 3]);
    assert_eq!(texts, chunks);
}

#[test]
fn ingestion_into_a_reused_table_appends() {
    let existing = Some(TableInfo { dimension: 2, rows: 7 });
    let plan =
        plan_ingestion(&strings(&["x"]), &vec![2], existing, TableMode::CreateIfMissing, 2).unwrap();
    assert_eq!(plan.action, TableAction::Reuse);
    assert_eq!(plan.rows[0].id, 8);
    assert_eq!(plan.table.rows, 8);
}

#[test]
fn ingestion_with_a_bad_vector_plans_no_write() {
    let existing = Some(TableInfo { dimension: 768, rows: 2 });
    let r = plan_ingestion(&strings(&["a", "b"]), &vec![768, 1024], existing, TableMode::Overwrite, 768);
    assert!(matches!(
        r,
        Err(IngestError::DimensionMismatch { index: 1, expected: 768, actual: 1024 })
    ));
}

#[test]
fn ingestion_reports_table_errors() {
    let existing = Some(TableInfo { dimension: 4, rows: 2 });
    let r = plan_ingestion(&strings(&["a"]), &vec![4], existing, TableMode::FailIfExists, 4);
    assert!(matches!(r, Err(IngestError::Index(IndexError::TableExists))));
    let r = plan_ingestion(&strings(&["a"]), &vec![8], existing, TableMode::CreateIfMissing, 8);
    assert!(matches!(
        r,
        Err(IngestError::Index(IndexError::SchemaConflict { existing: 4, requested: 8 }))
    ));
}
