//! The one configuration value of a pipeline, built once and passed on.
use vstd::prelude::*;
use crate::index::TableMode;

verus! {

pub const DEFAULT_URI: &'static str = ".data/embeddingsdb";

pub const DEFAULT_TABLE_NAME: &'static str = "EmbeddingsTable";

/// The vector length of the default embedding model.
pub const DEFAULT_DIMENSION: usize = 1024;

pub const DEFAULT_MAX_TOKENS: usize = 1000;

/// How many retrieved chunks a turn's context holds by default.
pub const DEFAULT_TOP_K: usize = 2;

pub const DEFAULT_TOKENIZER_MODEL: &'static str = "bert-base-cased";

/// The columns of an index table: an `id` (32-bit integer), a `text` and an
/// `embedding` of `dimension` 32-bit floats.
#[derive(Debug, Clone, Copy, PartialEq, Eq, Structural)]
pub struct TableSchema {
    pub dimension: usize,
}

pub struct Config {
    /// Where the index is stored.
    pub uri: String,
    pub table_name: String,
    pub schema: TableSchema,
    pub mode: TableMode,
    /// The token budget of each chunk.
    pub max_tokens: usize,
    /// How many retrieved chunks a turn's context holds.
    pub top_k: usize,
    /// The tokenizer that counts a chunk's tokens.
    pub tokenizer_model: String,
}

impl Config {
    /// A configuration for the table `table_name` at `uri` with `schema`; the
    /// other settings take their defaults.
    pub fn new(uri: String, table_name: String, schema: TableSchema) -> (c: Config)
        ensures
            c.uri@ == uri@,
            c.table_name@ == table_name@,
            c.schema == schema,
            c.mode == TableMode::Overwrite,
            c.max_tokens == DEFAULT_MAX_TOKENS,
            c.top_k == DEFAULT_TOP_K,
            c.tokenizer_model@ == DEFAULT_TOKENIZER_MODEL@,
    {
        Config {
            uri,
            table_name,
            schema,
            mode: TableMode::Overwrite,
            max_tokens: DEFAULT_MAX_TOKENS,
            top_k: DEFAULT_TOP_K,
            tokenizer_model: String::from_str(DEFAULT_TOKENIZER_MODEL),
        }
    }

    pub fn with_mode(self, mode: TableMode) -> (c: Config)
        ensures
            c == (Config { mode, ..self }),
    {
        Config { mode, ..self }
    }

    pub fn with_max_tokens(self, max_tokens: usize) -> (c: Config)
        ensures
            c == (Config { max_tokens, ..self }),
    {
        Config { max_tokens, ..self }
    }

    pub fn with_top_k(self, top_k: usize) -> (c: Config)
        ensures
            c == (Config { top_k, ..self }),
    {
        Config { top_k, ..self }
    }
}

impl Default for Config {
    fn default() -> (c: Config)
        ensures
            c.uri@ == DEFAULT_URI@,
            c.table_name@ == DEFAULT_TABLE_NAME@,
            c.schema == (TableSchema { dimension: DEFAULT_DIMENSION }),
            c.mode == TableMode::Overwrite,
            c.max_tokens == DEFAULT_MAX_TOKENS,
            c.top_k == DEFAULT_TOP_K,
            c.tokenizer_model@ == DEFAULT_TOKENIZER_MODEL@,
    {
        Config::new(
            String::from_str(DEFAULT_URI),
            String::from_str(DEFAULT_TABLE_NAME),
            TableSchema { dimension: DEFAULT_DIMENSION },
        )
    }
}

} // verus!
