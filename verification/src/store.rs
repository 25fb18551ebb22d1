//! The stored table of translations as the cache sees it: rows, the commands
//! that change them, and what each command does to the table.
//!
//! The commands are carried out by the caller, against durable storage. Here
//! they are values, and `table_after` says what carrying one out means.

use vstd::prelude::*;

verus! {

/// One row of the table, column by column as it is stored.
#[derive(Debug, Clone)]
pub struct StoredRow {
    pub cache_key: String,
    pub content_hash: String,
    pub path: String,
    pub translated_content: String,
    pub translated_hash: String,
    /// RFC 3339 text.
    pub created_at: String,
    /// RFC 3339 text.
    pub accessed_at: String,
    pub hit_count: i64,
    /// JSON text.
    pub metadata: String,
}

/// A row as a mathematical value.
pub struct RowView {
    pub cache_key: Seq<char>,
    pub content_hash: Seq<char>,
    pub path: Seq<char>,
    pub translated_content: Seq<char>,
    pub translated_hash: Seq<char>,
    pub created_at: Seq<char>,
    pub accessed_at: Seq<char>,
    pub hit_count: int,
    pub metadata: Seq<char>,
}

impl StoredRow {
    /// The columns of the row.
    pub open spec fn columns(&self) -> RowView {
        RowView {
            cache_key: self.cache_key@,
            content_hash: self.content_hash@,
            path: self.path@,
            translated_content: self.translated_content@,
            translated_hash: self.translated_hash@,
            created_at: self.created_at@,
            accessed_at: self.accessed_at@,
            hit_count: self.hit_count as int,
            metadata: self.metadata@,
        }
    }
}

/// The table: each key with the row stored under it.
pub type Table = Map<Seq<char>, RowView>;

/// A change to the table, or to the storage that holds it.
#[derive(Debug, Clone)]
pub enum StoreCommand {
    /// Store the row under its key, in place of any row that was there.
    Upsert(StoredRow),
    /// Remove the row with the key.
    Delete { cache_key: String },
    /// Add `count` to the row's hit count and set its time of last access.
    AddHits { cache_key: String, count: i64, accessed_at: String },
    /// Remove the rows created before the cutoff, an RFC 3339 text.
    DeleteCreatedBefore { cutoff: String },
    /// Remove the rows last accessed before the cutoff, an RFC 3339 text.
    DeleteAccessedBefore { cutoff: String },
    /// Remove every row.
    DeleteAll,
    /// Move what the write-ahead log holds into the primary store.
    Checkpoint,
}

/// Whether text `a` sorts before text `b`, character by character: how the
/// table compares its time columns with a cutoff.
pub open spec fn text_before(a: Seq<char>, b: Seq<char>) -> bool
    decreases a.len(),
{
    if b.len() == 0 {
        false
    } else if a.len() == 0 {
        true
    } else if a[0] != b[0] {
        (a[0] as u32) < (b[0] as u32)
    } else {
        text_before(a.skip(1), b.skip(1))
    }
}

/// The table after the command has been carried out.
pub open spec fn table_after(command: StoreCommand, table: Table) -> Table {
    match command {
        StoreCommand::Upsert(row) => table.insert(row.cache_key@, row.columns()),
        StoreCommand::Delete { cache_key } => table.remove(cache_key@),
        StoreCommand::AddHits { cache_key, count, accessed_at } => if table.contains_key(
            cache_key@,
        ) {
            let row = table[cache_key@];
            table.insert(
                cache_key@,
                RowView { hit_count: row.hit_count + count, accessed_at: accessed_at@, ..row },
            )
        } else {
            table
        },
        StoreCommand::DeleteCreatedBefore { cutoff } => table.restrict(
            Set::new(|k: Seq<char>| table.contains_key(k) && !text_before(table[k].created_at, cutoff@)),
        ),
        StoreCommand::DeleteAccessedBefore { cutoff } => table.restrict(
            Set::new(
                |k: Seq<char>| table.contains_key(k) && !text_before(table[k].accessed_at, cutoff@),
            ),
        ),
        StoreCommand::DeleteAll => Map::empty(),
        StoreCommand::Checkpoint => table,
    }
}

/// The table after the commands have been carried out, first to last.
pub open spec fn table_after_all(commands: Seq<StoreCommand>, table: Table) -> Table
    decreases commands.len(),
{
    if commands.len() == 0 {
        table
    } else {
        table_after(commands.last(), table_after_all(commands.drop_last(), table))
    }
}

/// How many connections to storage are open at once, at most.
pub const MAX_CONNECTIONS: u32 = 2;

/// Changes go to a write-ahead log.
pub const JOURNAL_MODE: &'static str = "PRAGMA journal_mode=WAL";

/// The log is flushed to disk without full synchronisation: it survives a
/// crash of the process, but a loss of power may cost the latest changes.
pub const SYNCHRONOUS: &'static str = "PRAGMA synchronous=NORMAL";

/// The page cache holds about 8 MB.
pub const CACHE_SIZE: &'static str = "PRAGMA cache_size=-8000";

/// A statement waits five seconds for a lock before it fails.
pub const BUSY_TIMEOUT: &'static str = "PRAGMA busy_timeout=5000";

/// The log is moved into the primary store after every 100 pages.
pub const WAL_AUTOCHECKPOINT: &'static str = "PRAGMA wal_autocheckpoint=100";

/// The table of translations.
pub const CREATE_TABLE: &'static str = "CREATE TABLE IF NOT EXISTS translations (
    cache_key TEXT PRIMARY KEY,
    content_hash TEXT NOT NULL,
    path TEXT NOT NULL,
    translated_content TEXT NOT NULL,
    translated_hash TEXT NOT NULL,
    created_at TEXT NOT NULL,
    accessed_at TEXT NOT NULL,
    hit_count INTEGER DEFAULT 0,
    metadata TEXT DEFAULT '{}'
)";

/// The index of the table by fingerprint of the content.
pub const CREATE_INDEX_CONTENT_HASH: &'static str =
    "CREATE INDEX IF NOT EXISTS idx_content_hash ON translations(content_hash)";

/// The index of the table by path.
pub const CREATE_INDEX_PATH: &'static str =
    "CREATE INDEX IF NOT EXISTS idx_path ON translations(path)";

/// The index of the table by time of creation.
pub const CREATE_INDEX_CREATED_AT: &'static str =
    "CREATE INDEX IF NOT EXISTS idx_created_at ON translations(created_at)";

/// The query for the row of one key, which is its one parameter.
pub const SELECT_ROW: &'static str = "SELECT * FROM translations WHERE cache_key = ?";

/// The query for the figures of the table: the number of rows, the sum of
/// the lengths of the translations in bytes, the least and the greatest time
/// of creation, and the sum of the hit counts.
pub const SELECT_FIGURES: &'static str =
    "SELECT COUNT(*) AS entries, SUM(LENGTH(CAST(translated_content AS BLOB))) AS size_bytes, MIN(created_at) AS oldest, MAX(created_at) AS newest, SUM(hit_count) AS hits FROM translations";

/// A value for a parameter of a statement.
#[derive(Debug, Clone)]
pub enum Parameter {
    Text(String),
    Integer(i64),
}

impl StoreCommand {
    /// The statement that carries the command out.
    pub open spec fn statement_text(&self) -> Seq<char> {
        match self {
            StoreCommand::Upsert(_) =>
                "INSERT OR REPLACE INTO translations (cache_key, content_hash, path, translated_content, translated_hash, created_at, accessed_at, hit_count, metadata) VALUES (?, ?, ?, ?, ?, ?, ?, ?, ?)"@,
            StoreCommand::Delete { .. } => "DELETE FROM translations WHERE cache_key = ?"@,
            StoreCommand::AddHits { .. } =>
                "UPDATE translations SET accessed_at = ?, hit_count = hit_count + ? WHERE cache_key = ?"@,
            StoreCommand::DeleteCreatedBefore { .. } =>
                "DELETE FROM translations WHERE created_at < ?"@,
            StoreCommand::DeleteAccessedBefore { .. } =>
                "DELETE FROM translations WHERE accessed_at < ?"@,
            StoreCommand::DeleteAll => "DELETE FROM translations"@,
            StoreCommand::Checkpoint => "PRAGMA wal_checkpoint(TRUNCATE)"@,
        }
    }

    /// The statement that carries the command out.
    pub fn statement(&self) -> (sql: &'static str)
        ensures
            sql@ == self.statement_text(),
    {
        match self {
            StoreCommand::Upsert(_) =>
                "INSERT OR REPLACE INTO translations (cache_key, content_hash, path, translated_content, translated_hash, created_at, accessed_at, hit_count, metadata) VALUES (?, ?, ?, ?, ?, ?, ?, ?, ?)",
            StoreCommand::Delete { .. } => "DELETE FROM translations WHERE cache_key = ?",
            StoreCommand::AddHits { .. } =>
                "UPDATE translations SET accessed_at = ?, hit_count = hit_count + ? WHERE cache_key = ?",
            StoreCommand::DeleteCreatedBefore { .. } =>
                "DELETE FROM translations WHERE created_at < ?",
            StoreCommand::DeleteAccessedBefore { .. } =>
                "DELETE FROM translations WHERE accessed_at < ?",
            StoreCommand::DeleteAll => "DELETE FROM translations",
            StoreCommand::Checkpoint => "PRAGMA wal_checkpoint(TRUNCATE)",
        }
    }

    /// Whether `values` are the values for the parameters of the command's
    /// statement, in the order of its question marks.
    pub open spec fn has_parameters(&self, values: Seq<Parameter>) -> bool {
        match self {
            StoreCommand::Upsert(row) => {
                &&& values.len() == 9
                &&& values[0] matches Parameter::Text(t) && t@ == row.cache_key@
                &&& values[1] matches Parameter::Text(t) && t@ == row.content_hash@
                &&& values[2] matches Parameter::Text(t) && t@ == row.path@
                &&& values[3] matches Parameter::Text(t) && t@ == row.translated_content@
                &&& values[4] matches Parameter::Text(t) && t@ == row.translated_hash@
                &&& values[5] matches Parameter::Text(t) && t@ == row.created_at@
                &&& values[6] matches Parameter::Text(t) && t@ == row.accessed_at@
                &&& values[7] == Parameter::Integer(row.hit_count)
                &&& values[8] matches Parameter::Text(t) && t@ == row.metadata@
            },
            StoreCommand::Delete { cache_key } => {
                &&& values.len() == 1
                &&& values[0] matches Parameter::Text(t) && t@ == cache_key@
            },
            StoreCommand::AddHits { cache_key, count, accessed_at } => {
                &&& values.len() == 3
                &&& values[0] matches Parameter::Text(t) && t@ == accessed_at@
                &&& values[1] == Parameter::Integer(*count)
                &&& values[2] matches Parameter::Text(t) && t@ == cache_key@
            },
            StoreCommand::DeleteCreatedBefore { cutoff } => {
                &&& values.len() == 1
                &&& values[0] matches Parameter::Text(t) && t@ == cutoff@
            },
            StoreCommand::DeleteAccessedBefore { cutoff } => {
                &&& values.len() == 1
                &&& values[0] matches Parameter::Text(t) && t@ == cutoff@
            },
            StoreCommand::DeleteAll => values.len() == 0,
            StoreCommand::Checkpoint => values.len() == 0,
        }
    }

    /// The values for the parameters of the command's statement.
    pub fn parameters(&self) -> (values: Vec<Parameter>)
        ensures
            self.has_parameters(values@),
    {
        let mut values: Vec<Parameter> = Vec::new();
        match self {
            StoreCommand::Upsert(row) => {
                values.push(Parameter::Text(row.cache_key.clone()));
                values.push(Parameter::Text(row.content_hash.clone()));
                values.push(Parameter::Text(row.path.clone()));
                values.push(Parameter::Text(row.translated_content.clone()));
                values.push(Parameter::Text(row.translated_hash.clone()));
                values.push(Parameter::Text(row.created_at.clone()));
                values.push(Parameter::Text(row.accessed_at.clone()));
                values.push(Parameter::Integer(row.hit_count));
                values.push(Parameter::Text(row.metadata.clone()));
            },
            StoreCommand::Delete { cache_key } => {
                values.push(Parameter::Text(cache_key.clone()));
            },
            StoreCommand::AddHits { cache_key, count, accessed_at } => {
                values.push(Parameter::Text(accessed_at.clone()));
                values.push(Parameter::Integer(*count));
                values.push(Parameter::Text(cache_key.clone()));
            },
            StoreCommand::DeleteCreatedBefore { cutoff } => {
                values.push(Parameter::Text(cutoff.clone()));
            },
            StoreCommand::DeleteAccessedBefore { cutoff } => {
                values.push(Parameter::Text(cutoff.clone()));
            },
            StoreCommand::DeleteAll => {},
            StoreCommand::Checkpoint => {},
        }
        values
    }
}

} // verus!
