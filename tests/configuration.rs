use rag_rs::config::{Config, TableSchema};
use rag_rs::index::TableMode;

#[test]
fn default_configuration() {
    let c = Config::default();
    assert_eq!(c.uri, ".data/embeddingsdb");
    assert_eq!(c.table_name, "EmbeddingsTable");
    assert_eq!(c.schema, TableSchema { dimension: 1024 });
    assert_eq!(c.mode, TableMode::Overwrite);
    assert_eq!(c.max_tokens, 1000);
    assert_eq!(c.top_k, 2);
    assert_eq!(c.tokenizer_model, "bert-base-cased");
}

#[test]
fn configuration_for_a_table() {
    let c = Config::new("db".to_string(), "docs".to_string(), TableSchema { dimension: 768 })
        .with_mode(TableMode::CreateIfMissing)
        .with_max_tokens(200)
        .with_top_k(4);
    assert_eq!(c.uri, "db");
    assert_eq!(c.table_name, "docs");
    assert_eq!(c.schema.dimension, 768);
    assert_eq!(c.mode, TableMode::CreateIfMissing);
    assert_eq!(c.max_tokens, 200);
    assert_eq!(c.top_k, 4);
}
