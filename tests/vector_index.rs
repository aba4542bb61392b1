use rag_rs::index::{
    check_query, count_rows, distance_key, open_or_create, plan_write, rank, top_texts, Hit, IndexError,
    TableAction, TableInfo, TableMode, MAX_ROW_ID,
};

fn table(dimension: usize, rows: usize) -> TableInfo {
    TableInfo { dimension, rows }
}

#[test]
fn should_create_table_if_not_exists() {
    let plan = open_or_create(None, TableMode::Overwrite, 2).unwrap();
    assert_eq!(plan.action, TableAction::Create);
    assert_eq!(plan.table, table(2, 0));
    for mode in [TableMode::CreateIfMissing, TableMode::FailIfExists] {
        assert_eq!(open_or_create(None, mode, 2).unwrap().action, TableAction::Create);
    }
}

#[test]
fn open_modes_on_an_existing_table() {
    let existing = Some(table(768, 5));
    let replaced = open_or_create(existing, TableMode::Overwrite, 1024).unwrap();
    assert_eq!(replaced.action, TableAction::Replace);
    assert_eq!(replaced.table, table(1024, 0));
    let reused = open_or_create(existing, TableMode::CreateIfMissing, 768).unwrap();
    assert_eq!(reused.action, TableAction::Reuse);
    assert_eq!(reused.table, table(768, 5));
    assert_eq!(
        open_or_create(existing, TableMode::CreateIfMissing, 1024),
        Err(IndexError::SchemaConflict { existing: 768, requested: 1024 })
    );
    assert_eq!(
        open_or_create(existing, TableMode::FailIfExists, 768),
        Err(IndexError::TableExists)
    );
}

#[test]
fn writing_n_rows_then_counting_yields_n() {
    let opened = open_or_create(None, TableMode::Overwrite, 3).unwrap();
    let plan = plan_write(&opened.table, &vec![3, 3, 3, 3]).unwrap();
    assert_eq!(plan.ids, vec![1, 2, 3, 4]);
    assert_eq!(count_rows(&plan.table), 4);
}

#[test]
fn appended_rows_continue_the_ids() {
    let plan = plan_write(&table(3, 4), &vec![3, 3]).unwrap();
    assert_eq!(plan.ids, vec![5, 6]);
    assert_eq!(plan.table, table(3, 6));
    let empty = plan_write(&table(3, 4), &vec![]).unwrap();
    assert!(empty.ids.is_empty());
    assert_eq!(empty.table, table(3, 4));
}

#[test]
fn overwrite_twice_does_not_accumulate() {
    let batch = vec![8usize; 10];
    let first = open_or_create(Some(table(8, 3)), TableMode::Overwrite, 8).unwrap();
    let written = plan_write(&first.table, &batch).unwrap();
    let second = open_or_create(Some(written.table), TableMode::Overwrite, 8).unwrap();
    let rewritten = plan_write(&second.table, &batch).unwrap();
    assert_eq!(count_rows(&written.table), 10);
    assert_eq!(count_rows(&rewritten.table), 10);
    assert_eq!(written.ids, rewritten.ids);
}

#[test]
fn vector_of_wrong_dimension_is_refused() {
    let created = open_or_create(None, TableMode::Overwrite, 768).unwrap();
    let r = plan_write(&created.table, &vec![768, 1024, 512]);
    assert!(matches!(
        r,
        Err(IndexError::DimensionMismatch { index: 1, expected: 768, actual: 1024 })
    ));
    assert_eq!(count_rows(&created.table), 0);
}

#[test]
fn ids_beyond_the_column_are_refused() {
    let full = table(2, MAX_ROW_ID as usize);
    assert!(matches!(plan_write(&full, &vec![2]), Err(IndexError::IdsExhausted)));
    let last = plan_write(&table(2, MAX_ROW_ID as usize - 1), &vec![2]).unwrap();
    assert_eq!(last.ids, vec![MAX_ROW_ID]);
}

fn hit(id: i32, key: u32, text: &str) -> Hit {
    Hit { id, key, text: text.to_string() }
}

#[test]
fn search_ranks_by_distance_then_id() {
    let hits = vec![
        hit(4, 30, "d"),
        hit(2, 10, "b"),
        hit(3, 10, "c"),
        hit(1, 20, "a"),
        hit(5, 5, "e"),
    ];
    assert_eq!(rank(&hits, 3), vec![4, 1, 2]);
    assert_eq!(rank(&hits, 10), vec![4, 1, 2, 3, 0]);
    assert_eq!(rank(&hits, 0), Vec::<usize>::new());
    assert_eq!(top_texts(&hits, 2), vec!["e".to_string(), "b".to_string()]);
}

#[test]
fn search_on_an_empty_table_returns_nothing() {
    assert!(rank(&vec![], 5).is_empty());
}

#[test]
fn equal_hits_keep_their_order() {
    let hits = vec![hit(1, 7, "x"), hit(1, 7, "y")];
    assert_eq!(rank(&hits, 2), vec![0, 1]);
}

#[test]
fn distance_keys_follow_float_order() {
    let values = [-3.5f32, -1.0, -0.0, 0.0, 0.25, 1.0, 2.0, 1e30];
    let keys: Vec<u32> = values.iter().map(|v| distance_key(v.to_bits())).collect();
    for w in keys.windows(2) {
        assert!(w[0] <= w[1]);
    }
    assert_eq!(distance_key(0.0f32.to_bits()), 0x8000_0000);
    assert_eq!(distance_key((-0.0f32).to_bits()), distance_key(0.0f32.to_bits()));
    assert_eq!(distance_key(1.0f32.to_bits()), 0x8000_0000 | 0x3F80_0000);
    assert_eq!(distance_key((-1.0f32).to_bits()), !0xBF80_0000u32);
}

#[test]
fn query_of_wrong_dimension_is_refused() {
    assert_eq!(check_query(&table(768, 3), 768), Ok(()));
    assert_eq!(
        check_query(&table(768, 3), 1024),
        Err(IndexError::DimensionMismatch { index: 0, expected: 768, actual: 1024 })
    );
}

#[test]
fn zero_distances_of_either_sign_tie_and_fall_back_to_id() {
    let hits = vec![
        hit(9, distance_key((-0.0f32).to_bits()), "neg"),
        hit(3, distance_key(0.0f32.to_bits()), "pos"),
    ];
    assert_eq!(top_texts(&hits, 2), vec!["pos".to_string(), "neg".to_string()]);
}
