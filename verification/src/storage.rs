//! The word list kept in SQLite: validated input, the schema and its
//! migrations, and the repository with create-or-update, lookup by id or
//! by text, search, update and delete.
//!
//! The table is modelled as a map from row id to the stored record
//! (`stored_words`); every statement the repository runs is stated as a
//! change of that map.

use vstd::prelude::*;
use crate::image::{decimal, decimal_string};
use crate::lookup_text::string_views;
use crate::text::{chars_of, string_of_range, trim_bounds, trimmed, trim_string};
use rusqlite::OptionalExtension;

verus! {

// ---------------------------------------------------------------------------
// Outside types
// ---------------------------------------------------------------------------

#[verifier::external_type_specification]
#[verifier::external_body]
pub struct ExConnection(rusqlite::Connection);

#[verifier::external_type_specification]
#[verifier::external_body]
pub struct ExSqlError(rusqlite::Error);

#[verifier::external_type_specification]
#[verifier::external_body]
pub struct ExIoError(std::io::Error);

#[verifier::external_type_specification]
#[verifier::external_body]
pub struct ExJsonError(serde_json::Error);

// ---------------------------------------------------------------------------
// Errors and input
// ---------------------------------------------------------------------------

/// Why a storage operation failed.
#[derive(Debug)]
pub enum StorageError {
    /// SQLite reported an error (or a stored value could not be read back).
    Database(rusqlite::Error),
    /// The database folder could not be created.
    Io(std::io::Error),
    /// No word has this id.
    NotFound(i64),
    /// The input was rejected before reaching the database.
    Validation(String),
    /// The database was written by a newer version of the schema.
    UnsupportedSchema { found: i64, supported: i64 },
    /// The lock around the connection was poisoned.
    LockPoisoned,
}

/// A saved word as the frontend sees it.
#[derive(Debug, Clone, PartialEq)]
pub struct SavedWord {
    pub id: i64,
    pub word: String,
    pub word_translation: String,
    pub meaning: String,
    pub sentence: String,
    pub sentence_translation: String,
    pub part_of_speech: String,
    pub topic: String,
    pub synonyms: Vec<String>,
    pub created_at: i64,
    pub updated_at: i64,
}

/// A word to save; only `word` and `word_translation` are required by the
/// frontend, the rest default to empty.
#[derive(Debug, Clone)]
pub struct NewWord {
    pub word: String,
    pub word_translation: String,
    pub meaning: String,
    pub sentence: String,
    pub sentence_translation: String,
    pub part_of_speech: String,
    pub topic: String,
    pub synonyms: Vec<String>,
}

/// New translation and meaning of a saved word.
#[derive(Debug, Clone)]
pub struct UpdateWord {
    pub word_translation: String,
    pub meaning: String,
}

impl NewWord {
    /// Trims the word and its translation; an empty word is rejected.
    pub fn validated(self) -> (r: Result<NewWord, StorageError>)
        ensures
            trimmed(self.word@).len() == 0 <==> r is Err,
            r matches Err(e) ==> e matches StorageError::Validation(m) && m@ == "word must not be empty"@,
            r matches Ok(w) ==> {
                &&& w.word@ == trimmed(self.word@)
                &&& w.word_translation@ == trimmed(self.word_translation@)
                &&& w.meaning == self.meaning
                &&& w.sentence == self.sentence
                &&& w.sentence_translation == self.sentence_translation
                &&& w.part_of_speech == self.part_of_speech
                &&& w.topic == self.topic
                &&& w.synonyms == self.synonyms
            },
    {
        let word = trim_string(self.word.as_str());
        let word_translation = trim_string(self.word_translation.as_str());
        if word.as_str().is_empty() {
            return Err(StorageError::Validation("word must not be empty".to_string()));
        }
        Ok(NewWord {
            word,
            word_translation,
            meaning: self.meaning,
            sentence: self.sentence,
            sentence_translation: self.sentence_translation,
            part_of_speech: self.part_of_speech,
            topic: self.topic,
            synonyms: self.synonyms,
        })
    }
}

impl UpdateWord {
    /// Trims both fields; an empty translation is rejected.
    pub fn validated(self) -> (r: Result<UpdateWord, StorageError>)
        ensures
            trimmed(self.word_translation@).len() == 0 <==> r is Err,
            r matches Err(e) ==> e matches StorageError::Validation(m) && m@ == "translation must not be empty"@,
            r matches Ok(u) ==> u.word_translation@ == trimmed(self.word_translation@) && u.meaning@ == trimmed(
                self.meaning@,
            ),
    {
        let word_translation = trim_string(self.word_translation.as_str());
        let meaning = trim_string(self.meaning.as_str());
        if word_translation.as_str().is_empty() {
            return Err(StorageError::Validation("translation must not be empty".to_string()));
        }
        Ok(UpdateWord { word_translation, meaning })
    }
}


// ---------------------------------------------------------------------------
// The model of the table
// ---------------------------------------------------------------------------

/// One row of the `words` table; `synonyms` is the JSON text stored in the
/// column.
pub ghost struct WordRecord {
    pub word: Seq<char>,
    pub word_translation: Seq<char>,
    pub meaning: Seq<char>,
    pub sentence: Seq<char>,
    pub sentence_translation: Seq<char>,
    pub part_of_speech: Seq<char>,
    pub topic: Seq<char>,
    pub synonyms: Seq<char>,
    pub created_at: i64,
    pub updated_at: i64,
}

/// The rows of the `words` table of the database behind a connection, by
/// id; empty while the table does not exist.
pub uninterp spec fn stored_words(conn: rusqlite::Connection) -> Map<i64, WordRecord>;

/// The `user_version` of the database behind a connection.
pub uninterp spec fn schema_version(conn: rusqlite::Connection) -> i64;

/// SQLite's `NOCASE` folding of one character: only the 26 ASCII capitals
/// are lowered.
pub open spec fn fold_ascii(c: char) -> char {
    if 'A' <= c && c <= 'Z' {
        ((c as int) + 32) as char
    } else {
        c
    }
}

pub open spec fn fold_ascii_seq(s: Seq<char>) -> Seq<char> {
    s.map_values(|c: char| fold_ascii(c))
}

/// The characters of a text before its first NUL character: all of them
/// when it holds none. SQLite's text comparisons stop at a NUL.
pub open spec fn before_nul(s: Seq<char>) -> Seq<char>
    decreases s.len(),
{
    if s.len() == 0 {
        s
    } else if s[0] == '\0' {
        Seq::empty()
    } else {
        seq![s[0]] + before_nul(s.drop_first())
    }
}

/// The number of bytes of a character in UTF-8.
pub open spec fn utf8_char_len(c: char) -> int {
    if (c as u32) < 0x80 {
        1
    } else if (c as u32) < 0x800 {
        2
    } else if (c as u32) < 0x10000 {
        3
    } else {
        4
    }
}

/// The number of bytes of a text in UTF-8, as SQLite stores it.
pub open spec fn utf8_len(s: Seq<char>) -> int
    decreases s.len(),
{
    if s.len() == 0 {
        0
    } else {
        utf8_len(s.drop_last()) + utf8_char_len(s.last())
    }
}

/// Two words are the same word for the `word` column (`COLLATE NOCASE`):
/// SQLite compares the texts byte by byte with the 26 ASCII capitals
/// lowered, stopping at a NUL they share, and then requires equal byte
/// lengths. For texts without NUL this is equality once folded.
pub open spec fn same_word(a: Seq<char>, b: Seq<char>) -> bool {
    &&& utf8_len(a) == utf8_len(b)
    &&& fold_ascii_seq(before_nul(a)) == fold_ascii_seq(before_nul(b))
}

/// Folding ASCII capitals keeps the UTF-8 length.
proof fn lemma_fold_keeps_utf8_len(s: Seq<char>)
    ensures
        utf8_len(fold_ascii_seq(s)) == utf8_len(s),
    decreases s.len(),
{
    if s.len() > 0 {
        assert(fold_ascii_seq(s).drop_last() == fold_ascii_seq(s.drop_last()));
        lemma_fold_keeps_utf8_len(s.drop_last());
    }
}

/// For texts without NUL, two words are the same word exactly when they
/// are equal once ASCII capitals are lowered.
pub proof fn lemma_same_word_without_nul(a: Seq<char>, b: Seq<char>)
    requires
        before_nul(a) == a,
        before_nul(b) == b,
    ensures
        same_word(a, b) <==> fold_ascii_seq(a) == fold_ascii_seq(b),
{
    lemma_fold_keeps_utf8_len(a);
    lemma_fold_keeps_utf8_len(b);
}

/// Some row holds the word.
pub open spec fn has_word(m: Map<i64, WordRecord>, word: Seq<char>) -> bool {
    exists|k: i64| m.dom().contains(k) && same_word(#[trigger] m[k].word, word)
}

/// No two rows hold the same word (the column's `UNIQUE` constraint).
pub open spec fn words_unique(m: Map<i64, WordRecord>) -> bool {
    forall|a: i64, b: i64|
        m.dom().contains(a) && m.dom().contains(b) && same_word(#[trigger] m[a].word, #[trigger] m[b].word)
            ==> a == b
}

/// The row as the conflict clause of the insert leaves it: the word and
/// its creation time stay, every other column is taken from the new row.
pub open spec fn refreshed(old: WordRecord, f: WordRecord) -> WordRecord {
    WordRecord {
        word: old.word,
        word_translation: f.word_translation,
        meaning: f.meaning,
        sentence: f.sentence,
        sentence_translation: f.sentence_translation,
        part_of_speech: f.part_of_speech,
        topic: f.topic,
        synonyms: f.synonyms,
        created_at: old.created_at,
        updated_at: f.updated_at,
    }
}

/// The id SQLite gives a new row of a table without `AUTOINCREMENT`: 1 in
/// an empty table, one more than the largest id otherwise, and, once the
/// largest id is `i64::MAX`, some unused positive id.
pub open spec fn new_row_id(old: Map<i64, WordRecord>, id: i64) -> bool {
    &&& !old.dom().contains(id)
    &&& if old.dom().contains(i64::MAX) {
        id > 0
    } else if old.dom().is_empty() {
        id == 1
    } else {
        old.dom().contains((id - 1) as i64) && forall|k: i64| #[trigger] old.dom().contains(k) ==> k < id
    }
}

/// The effect of inserting the row `f` with `ON CONFLICT (word) DO UPDATE`:
/// a row holding the same word is refreshed and keeps its id; otherwise
/// the row is added under the id SQLite chooses.
pub open spec fn upserted(old: Map<i64, WordRecord>, new: Map<i64, WordRecord>, id: i64, f: WordRecord) -> bool {
    if has_word(old, f.word) {
        &&& old.dom().contains(id)
        &&& same_word(old[id].word, f.word)
        &&& new == old.insert(id, refreshed(old[id], f))
    } else {
        &&& new_row_id(old, id)
        &&& new == old.insert(id, f)
    }
}

/// The row after `UPDATE ... SET word_translation, meaning, updated_at`.
pub open spec fn edited(old: WordRecord, word_translation: Seq<char>, meaning: Seq<char>, at: i64) -> WordRecord {
    WordRecord { word_translation, meaning, updated_at: at, ..old }
}

/// `text` contains `needle`, ASCII letters compared without case (how
/// `LIKE` compares).
pub open spec fn contains_folded(text: Seq<char>, needle: Seq<char>) -> bool {
    exists|i: int|
        0 <= i && i + needle.len() <= text.len() && #[trigger] fold_ascii_seq(text.subrange(i, i + needle.len()))
            == fold_ascii_seq(needle)
}

/// `text` ends with `needle`, ASCII letters compared without case.
pub open spec fn ends_folded(text: Seq<char>, needle: Seq<char>) -> bool {
    needle.len() <= text.len() && fold_ascii_seq(text.subrange(text.len() - needle.len(), text.len() as int))
        == fold_ascii_seq(needle)
}

/// A stored text matches the `LIKE` pattern made for a search for `s`.
/// SQLite reads both the text and the pattern up to their first NUL: for a
/// search without NUL the text matches when it contains `s`; a NUL in the
/// search cuts the pattern's closing `%`, so the text must end with the
/// part of `s` before the NUL.
pub open spec fn like_matches(text: Seq<char>, s: Seq<char>) -> bool {
    if before_nul(s) == s {
        contains_folded(before_nul(text), s)
    } else {
        ends_folded(before_nul(text), before_nul(s))
    }
}

/// A row is found by a search for `s`: in the word or in its translation.
pub open spec fn record_matches_search(rec: WordRecord, s: Seq<char>) -> bool {
    like_matches(rec.word, s) || like_matches(rec.word_translation, s)
}

/// `ids` lists, each once, exactly the rows found by a search for `s`,
/// newest first.
pub open spec fn search_listing(m: Map<i64, WordRecord>, s: Seq<char>, ids: Seq<i64>) -> bool {
    &&& forall|i: int| 0 <= i < ids.len() ==> m.dom().contains(#[trigger] ids[i]) && record_matches_search(m[ids[i]], s)
    &&& forall|id: i64| m.dom().contains(id) && record_matches_search(m[id], s) ==> #[trigger] ids.contains(id)
    &&& forall|i: int, j: int|
        0 <= i < j < ids.len() ==> #[trigger] ids[i] != #[trigger] ids[j] && m[ids[i]].created_at
            >= m[ids[j]].created_at
}

/// The escaped form of a character inside a `LIKE` pattern with `\` as
/// escape character.
pub open spec fn like_escaped_char(c: char) -> Seq<char> {
    if c == '%' || c == '_' || c == '\\' {
        seq!['\\', c]
    } else {
        seq![c]
    }
}

/// `s` with `%`, `_` and `\` escaped.
pub open spec fn like_escaped(s: Seq<char>) -> Seq<char>
    decreases s.len(),
{
    if s.len() == 0 {
        Seq::empty()
    } else {
        like_escaped(s.drop_last()) + like_escaped_char(s.last())
    }
}

/// The `LIKE` pattern that matches every text containing `s`.
pub open spec fn contains_pattern(s: Seq<char>) -> Seq<char> {
    seq!['%'] + like_escaped(s) + seq!['%']
}

// ---------------------------------------------------------------------------
// Statements
// ---------------------------------------------------------------------------

/// The first version of the schema.
pub const SCHEMA_V1: &'static str = "CREATE TABLE words (
    id                   INTEGER PRIMARY KEY,
    word                 TEXT    NOT NULL UNIQUE COLLATE NOCASE,
    word_translation     TEXT    NOT NULL,
    meaning              TEXT    NOT NULL DEFAULT '',
    sentence             TEXT    NOT NULL DEFAULT '',
    sentence_translation TEXT    NOT NULL DEFAULT '',
    part_of_speech       TEXT    NOT NULL DEFAULT '',
    topic                TEXT    NOT NULL DEFAULT '',
    synonyms             TEXT    NOT NULL DEFAULT '[]',
    created_at           INTEGER NOT NULL,
    updated_at           INTEGER NOT NULL
);

CREATE INDEX idx_words_created_at ON words (created_at DESC);";

/// The migrations, oldest first; the schema version is their count.
pub const MIGRATIONS: [&'static str; 1] = [SCHEMA_V1];

/// The newest schema version.
pub const LATEST_SCHEMA_VERSION: i64 = 1;

const UPSERT_SQL: &'static str = "INSERT INTO words (
    word, word_translation, meaning, sentence, sentence_translation,
    part_of_speech, topic, synonyms, created_at, updated_at
)
VALUES (?1, ?2, ?3, ?4, ?5, ?6, ?7, ?8, ?9, ?9)
ON CONFLICT (word) DO UPDATE SET
    word_translation     = excluded.word_translation,
    meaning              = excluded.meaning,
    sentence             = excluded.sentence,
    sentence_translation = excluded.sentence_translation,
    part_of_speech       = excluded.part_of_speech,
    topic                = excluded.topic,
    synonyms             = excluded.synonyms,
    updated_at           = excluded.updated_at
RETURNING id, word, word_translation, meaning, sentence, sentence_translation,
    part_of_speech, topic, synonyms, created_at, updated_at";

const SELECT_BY_ID_SQL: &'static str = "SELECT id, word, word_translation, meaning, sentence,
    sentence_translation, part_of_speech, topic, synonyms, created_at, updated_at
FROM words WHERE id = ?1";

const SELECT_BY_WORD_SQL: &'static str = "SELECT id, word, word_translation, meaning, sentence,
    sentence_translation, part_of_speech, topic, synonyms, created_at, updated_at
FROM words WHERE word = ?1";

const SEARCH_SQL: &'static str = "SELECT id, word, word_translation, meaning, sentence,
    sentence_translation, part_of_speech, topic, synonyms, created_at, updated_at
FROM words
WHERE word LIKE ?1 ESCAPE '\\'
   OR word_translation LIKE ?1 ESCAPE '\\'
ORDER BY created_at DESC";

const UPDATE_SQL: &'static str = "UPDATE words
SET word_translation = ?1,
    meaning          = ?2,
    updated_at       = ?3
WHERE id = ?4
RETURNING id, word, word_translation, meaning, sentence, sentence_translation,
    part_of_speech, topic, synonyms, created_at, updated_at";

const DELETE_SQL: &'static str = "DELETE FROM words WHERE id = ?1";

/// A row as read from the table.
pub struct StoredRow {
    pub id: i64,
    pub word: String,
    pub word_translation: String,
    pub meaning: String,
    pub sentence: String,
    pub sentence_translation: String,
    pub part_of_speech: String,
    pub topic: String,
    pub synonyms: String,
    pub created_at: i64,
    pub updated_at: i64,
}

impl StoredRow {
    pub open spec fn record(&self) -> WordRecord {
        WordRecord {
            word: self.word@,
            word_translation: self.word_translation@,
            meaning: self.meaning@,
            sentence: self.sentence@,
            sentence_translation: self.sentence_translation@,
            part_of_speech: self.part_of_speech@,
            topic: self.topic@,
            synonyms: self.synonyms@,
            created_at: self.created_at,
            updated_at: self.updated_at,
        }
    }
}

/// The row inserted from the eight text parameters, stamped `at`.
pub open spec fn record_from_texts(texts: Seq<Seq<char>>, at: i64) -> WordRecord {
    WordRecord {
        word: texts[0],
        word_translation: texts[1],
        meaning: texts[2],
        sentence: texts[3],
        sentence_translation: texts[4],
        part_of_speech: texts[5],
        topic: texts[6],
        synonyms: texts[7],
        created_at: at,
        updated_at: at,
    }
}

/// A database without rows and with schema version 0.
pub open spec fn is_empty_database(conn: rusqlite::Connection) -> bool {
    stored_words(conn) == Map::<i64, WordRecord>::empty() && schema_version(conn) == 0
}

/// `Connection::open_in_memory`: a new, empty database (no table, user
/// version 0).
#[verifier::external_body]
fn open_memory_connection() -> (r: Result<rusqlite::Connection, rusqlite::Error>)
    ensures
        r matches Ok(conn) ==> is_empty_database(conn),
{
    rusqlite::Connection::open_in_memory()
}

/// `Connection::pragma_query_value` for `user_version`: the database's
/// schema version.
#[verifier::external_body]
fn read_schema_version(conn: &rusqlite::Connection) -> (r: Result<i64, rusqlite::Error>)
    ensures
        r matches Ok(v) ==> v == schema_version(*conn),
{
    conn.pragma_query_value(None, "user_version", |row| row.get(0))
}

/// The script applying migration `index` in one transaction and recording
/// the new schema version.
pub open spec fn migration_script_text(index: int) -> Seq<char> {
    "BEGIN;\n"@ + MIGRATIONS[index]@ + "\nPRAGMA user_version = "@ + decimal((index + 1) as nat) + ";\nCOMMIT;"@
}

/// `Connection::execute_batch` running a migration script: when it
/// succeeds, the schema version is the migration's number and the rows are
/// unchanged (a migration only creates the table and its index).
#[verifier::external_body]
fn run_migration_script(conn: &mut rusqlite::Connection, script: &str) -> (r: Result<(), rusqlite::Error>)
    ensures
        forall|index: int|
            0 <= index < MIGRATIONS.len() && #[trigger] migration_script_text(index) == script@ && schema_version(
                *old(conn),
            ) == index && r is Ok ==> schema_version(*final(conn)) == index + 1 && stored_words(*final(conn))
                == stored_words(*old(conn)),
{
    conn.execute_batch(script)
}

/// `Connection::query_row` running the insert-or-update statement with the
/// eight texts and the time as parameters; the statement returns the row as
/// it is stored afterwards.
#[verifier::external_body]
fn upsert_word_row(conn: &mut rusqlite::Connection, sql: &str, texts: &Vec<String>, now: i64) -> (r: Result<
    StoredRow,
    rusqlite::Error,
>)
    requires
        sql@ == UPSERT_SQL@,
        texts.len() == 8,
    ensures
        r matches Ok(row) ==> upserted(
            stored_words(*old(conn)),
            stored_words(*final(conn)),
            row.id,
            record_from_texts(string_views(texts@), now),
        ) && stored_words(*final(conn))[row.id] == row.record(),
{
    let text_params = texts.iter().map(|t| t as &dyn rusqlite::ToSql);
    let params = rusqlite::params_from_iter(text_params.chain(std::iter::once(&now as &dyn rusqlite::ToSql)));
    conn.query_row(sql, params, |row| Ok(StoredRow {
        id: row.get(0)?, word: row.get(1)?, word_translation: row.get(2)?, meaning: row.get(3)?,
        sentence: row.get(4)?, sentence_translation: row.get(5)?, part_of_speech: row.get(6)?,
        topic: row.get(7)?, synonyms: row.get(8)?, created_at: row.get(9)?, updated_at: row.get(10)?,
    }))
}


/// `Connection::query_row` (made optional) running the select by id: the
/// stored row with that id, or `None` when there is none.
#[verifier::external_body]
fn select_word_row_by_id(conn: &rusqlite::Connection, sql: &str, id: i64) -> (r: Result<Option<StoredRow>, rusqlite::Error>)
    requires
        sql@ == SELECT_BY_ID_SQL@,
    ensures
        r matches Ok(found) ==> match found {
            Some(row) => row.id == id && stored_words(*conn).dom().contains(id) && stored_words(*conn)[id] == row.record(),
            None => !stored_words(*conn).dom().contains(id),
        },
{
    conn.query_row(sql, [id], |row| Ok(StoredRow {
        id: row.get(0)?, word: row.get(1)?, word_translation: row.get(2)?, meaning: row.get(3)?,
        sentence: row.get(4)?, sentence_translation: row.get(5)?, part_of_speech: row.get(6)?,
        topic: row.get(7)?, synonyms: row.get(8)?, created_at: row.get(9)?, updated_at: row.get(10)?,
    })).optional()
}

/// `Connection::query_row` (made optional) running the select by word; the
/// column compares with `NOCASE`: a stored row holding the same word, or
/// `None` when no row does.
#[verifier::external_body]
fn select_word_row_by_text(conn: &rusqlite::Connection, sql: &str, word: &str) -> (r: Result<Option<StoredRow>, rusqlite::Error>)
    requires
        sql@ == SELECT_BY_WORD_SQL@,
    ensures
        r matches Ok(found) ==> match found {
            Some(row) => stored_words(*conn).dom().contains(row.id) && stored_words(*conn)[row.id] == row.record()
                && same_word(row.word@, word@),
            None => !has_word(stored_words(*conn), word@),
        },
{
    conn.query_row(sql, [word], |row| Ok(StoredRow {
        id: row.get(0)?, word: row.get(1)?, word_translation: row.get(2)?, meaning: row.get(3)?,
        sentence: row.get(4)?, sentence_translation: row.get(5)?, part_of_speech: row.get(6)?,
        topic: row.get(7)?, synonyms: row.get(8)?, created_at: row.get(9)?, updated_at: row.get(10)?,
    })).optional()
}

/// `Statement::query_map` over the search statement, collected: for the
/// pattern made for a search `s`, the rows whose word or translation
/// matches it as `LIKE` does (see `like_matches`), each once, newest first,
/// as they are stored.
#[verifier::external_body]
fn select_word_rows(conn: &rusqlite::Connection, sql: &str, pattern: &str) -> (r: Result<Vec<StoredRow>, rusqlite::Error>)
    requires
        sql@ == SEARCH_SQL@,
    ensures
        r matches Ok(rows) ==> (forall|i: int|
            0 <= i < rows.len() ==> stored_words(*conn).dom().contains(#[trigger] rows@[i].id)
                && stored_words(*conn)[rows@[i].id] == rows@[i].record()) && (forall|s: Seq<char>|
            #[trigger] contains_pattern(s) == pattern@ ==> search_listing(stored_words(*conn), s, row_ids(rows@))),
{
    let mut statement = conn.prepare(sql)?;
    let rows = statement.query_map([pattern], |row| Ok(StoredRow {
        id: row.get(0)?, word: row.get(1)?, word_translation: row.get(2)?, meaning: row.get(3)?,
        sentence: row.get(4)?, sentence_translation: row.get(5)?, part_of_speech: row.get(6)?,
        topic: row.get(7)?, synonyms: row.get(8)?, created_at: row.get(9)?, updated_at: row.get(10)?,
    }))?;
    rows.collect()
}

pub open spec fn row_ids(rows: Seq<StoredRow>) -> Seq<i64> {
    rows.map_values(|row: StoredRow| row.id)
}

/// `Connection::query_row` (made optional) running the update by id: the
/// row afterwards, or `None` (and no change) when no row has the id.
#[verifier::external_body]
fn update_word_row(
    conn: &mut rusqlite::Connection,
    sql: &str,
    word_translation: &str,
    meaning: &str,
    now: i64,
    id: i64,
) -> (r: Result<Option<StoredRow>, rusqlite::Error>)
    requires
        sql@ == UPDATE_SQL@,
    ensures
        r matches Ok(found) ==> match found {
            Some(row) => row.id == id && stored_words(*old(conn)).dom().contains(id) && stored_words(*final(conn))
                == stored_words(*old(conn)).insert(
                id,
                edited(stored_words(*old(conn))[id], word_translation@, meaning@, now),
            ) && stored_words(*final(conn))[id] == row.record(),
            None => !stored_words(*old(conn)).dom().contains(id) && stored_words(*final(conn)) == stored_words(
                *old(conn),
            ),
        },
{
    let params = (word_translation, meaning, now, id);
    conn.query_row(sql, params, |row| Ok(StoredRow {
        id: row.get(0)?, word: row.get(1)?, word_translation: row.get(2)?, meaning: row.get(3)?,
        sentence: row.get(4)?, sentence_translation: row.get(5)?, part_of_speech: row.get(6)?,
        topic: row.get(7)?, synonyms: row.get(8)?, created_at: row.get(9)?, updated_at: row.get(10)?,
    })).optional()
}

/// `Connection::execute` running the delete by id: the number of rows
/// removed, one when a row had the id (and it is gone), zero otherwise.
#[verifier::external_body]
fn delete_word_row(conn: &mut rusqlite::Connection, sql: &str, id: i64) -> (r: Result<usize, rusqlite::Error>)
    requires
        sql@ == DELETE_SQL@,
    ensures
        r matches Ok(n) ==> if stored_words(*old(conn)).dom().contains(id) {
            n == 1 && stored_words(*final(conn)) == stored_words(*old(conn)).remove(id)
        } else {
            n == 0 && stored_words(*final(conn)) == stored_words(*old(conn))
        },
{
    conn.execute(sql, [id])
}

// ---------------------------------------------------------------------------
// The synonyms column
// ---------------------------------------------------------------------------

/// The JSON array of strings that `serde_json::to_string` writes for a list.
pub uninterp spec fn json_text(items: Seq<Seq<char>>) -> Seq<char>;

/// The list of strings that `serde_json::from_str` reads from a text, or
/// `None` when the text is not a JSON array of strings.
pub uninterp spec fn json_string_list(text: Seq<char>) -> Option<Seq<Seq<char>>>;

/// `serde_json::to_string` of a list of strings; serialising strings into
/// memory cannot fail, so the result is always the JSON text, and
/// `serde_json::from_str` reads that text back as the same strings.
#[verifier::external_body]
fn write_json_list(items: &Vec<String>) -> (r: Result<String, String>)
    ensures
        r is Ok,
        r matches Ok(text) ==> text@ == json_text(string_views(items@)),
        r matches Ok(text) ==> json_string_list(text@) == Some(string_views(items@)),
{
    match serde_json::to_string(items) {
        Ok(text) => Ok(text),
        Err(error) => Err(error.to_string()),
    }
}

/// `serde_json::from_str` reading a list of strings.
#[verifier::external_body]
fn read_json_list(text: &str) -> (r: Result<Vec<String>, serde_json::Error>)
    ensures
        match r {
            Ok(items) => json_string_list(text@) == Some(string_views(items@)),
            Err(_) => json_string_list(text@) is None,
        },
{
    serde_json::from_str(text)
}

/// Position of the synonyms column in the selected rows.
const SYNONYMS_COLUMN: usize = 8;

/// `rusqlite::Error::FromSqlConversionFailure` for a text column that does
/// not hold what was expected, carrying the JSON error. Nothing is stated
/// of the error value, which Verus cannot look into.
#[verifier::external_body]
fn synonyms_column_error(column: usize, error: serde_json::Error) -> (r: rusqlite::Error) {
    rusqlite::Error::FromSqlConversionFailure(column, rusqlite::types::Type::Text, error.into())
}


// ---------------------------------------------------------------------------
// Repository
// ---------------------------------------------------------------------------

/// The saved word read from a stored row: the same columns, with the
/// synonyms read from their JSON text.
pub open spec fn saved_matches(w: SavedWord, id: i64, rec: WordRecord) -> bool {
    &&& w.id == id
    &&& w.word@ == rec.word
    &&& w.word_translation@ == rec.word_translation
    &&& w.meaning@ == rec.meaning
    &&& w.sentence@ == rec.sentence
    &&& w.sentence_translation@ == rec.sentence_translation
    &&& w.part_of_speech@ == rec.part_of_speech
    &&& w.topic@ == rec.topic
    &&& json_string_list(rec.synonyms) == Some(string_views(w.synonyms@))
    &&& w.created_at == rec.created_at
    &&& w.updated_at == rec.updated_at
}

/// The row a new word is saved as, stamped `at`: the validated texts and
/// the synonyms as JSON.
pub open spec fn new_word_record(w: NewWord, at: i64) -> WordRecord {
    WordRecord {
        word: trimmed(w.word@),
        word_translation: trimmed(w.word_translation@),
        meaning: w.meaning@,
        sentence: w.sentence@,
        sentence_translation: w.sentence_translation@,
        part_of_speech: w.part_of_speech@,
        topic: w.topic@,
        synonyms: json_text(string_views(w.synonyms@)),
        created_at: at,
        updated_at: at,
    }
}

/// Reads a saved word from a stored row; a synonyms column that is not a
/// JSON list of strings is a database error.
fn row_to_word(row: &StoredRow) -> (r: Result<SavedWord, StorageError>)
    ensures
        json_string_list(row.synonyms@) is Some <==> r is Ok,
        r matches Ok(w) ==> saved_matches(w, row.id, row.record()),
        r matches Err(e) ==> e is Database,
{
    let synonyms = match read_json_list(row.synonyms.as_str()) {
        Ok(items) => items,
        Err(error) => return Err(StorageError::Database(synonyms_column_error(SYNONYMS_COLUMN, error))),
    };
    Ok(SavedWord {
        id: row.id,
        word: row.word.clone(),
        word_translation: row.word_translation.clone(),
        meaning: row.meaning.clone(),
        sentence: row.sentence.clone(),
        sentence_translation: row.sentence_translation.clone(),
        part_of_speech: row.part_of_speech.clone(),
        topic: row.topic.clone(),
        synonyms,
        created_at: row.created_at,
        updated_at: row.updated_at,
    })
}

/// Escapes `%`, `_` and `\` with a backslash, so that a search text is
/// matched literally inside a `LIKE` pattern.
pub fn escape_like(text: &str) -> (r: String)
    ensures
        r@ == like_escaped(text@),
{
    let chars = chars_of(text);
    let mut result = String::new();
    let mut i: usize = 0;
    while i < chars.len()
        invariant
            i <= chars.len(),
            result@ == like_escaped(chars@.subrange(0, i as int)),
        decreases chars.len() - i,
    {
        let character = chars[i];
        if character == '%' || character == '_' || character == '\\' {
            result.push('\\');
        }
        result.push(character);
        assert(chars@.subrange(0, i + 1).drop_last() == chars@.subrange(0, i as int));
        i = i + 1;
    }
    assert(chars@.subrange(0, chars.len() as int) == chars@);
    result
}

/// The search pattern for a text: any text containing it.
fn search_pattern(search: &str) -> (r: String)
    ensures
        r@ == contains_pattern(search@),
{
    let mut pattern = String::new();
    pattern.push('%');
    pattern.push_str(escape_like(search).as_str());
    pattern.push('%');
    pattern
}

/// The migration script for migration `index`.
fn migration_script(index: usize) -> (r: String)
    requires
        index < MIGRATIONS.len(),
    ensures
        r@ == migration_script_text(index as int),
{
    let mut script = String::new();
    script.push_str("BEGIN;\n");
    script.push_str(MIGRATIONS[index]);
    script.push_str("\nPRAGMA user_version = ");
    script.push_str(decimal_string((index + 1) as u128).as_str());
    script.push_str(";\nCOMMIT;");
    script
}

/// Brings the database to the newest schema, one migration at a time, each
/// in its own transaction. A database newer than this schema is refused; a
/// negative version is left as it is.
pub fn migrate(conn: &mut rusqlite::Connection) -> (r: Result<(), StorageError>)
    ensures
        r matches Err(e) ==> e is Database || e is UnsupportedSchema,
        r matches Err(StorageError::UnsupportedSchema { found, supported }) ==> found == schema_version(*old(conn))
            && supported == LATEST_SCHEMA_VERSION && found > LATEST_SCHEMA_VERSION,
        r is Ok ==> schema_version(*old(conn)) <= LATEST_SCHEMA_VERSION,
        r is Ok ==> stored_words(*final(conn)) == stored_words(*old(conn)),
        r is Ok ==> schema_version(*final(conn)) == if schema_version(*old(conn)) < 0 {
            schema_version(*old(conn))
        } else {
            LATEST_SCHEMA_VERSION
        },
{
    let current = match read_schema_version(&*conn) {
        Ok(version) => version,
        Err(error) => return Err(StorageError::Database(error)),
    };
    let latest = LATEST_SCHEMA_VERSION;
    if current > latest {
        return Err(StorageError::UnsupportedSchema { found: current, supported: latest });
    }
    if current >= 0 {
        let mut index = current as usize;
        while index < MIGRATIONS.len()
            invariant
                index <= MIGRATIONS.len(),
                schema_version(*conn) == index,
                stored_words(*conn) == stored_words(*old(conn)),
                MIGRATIONS.len() == LATEST_SCHEMA_VERSION,
            decreases MIGRATIONS.len() - index,
        {
            let script = migration_script(index);
            match run_migration_script(conn, script.as_str()) {
                Ok(()) => {},
                Err(error) => return Err(StorageError::Database(error)),
            }
            index = index + 1;
        }
    }
    Ok(())
}

/// The saved words, in an SQLite database brought to the newest schema.
pub struct WordRepository {
    conn: rusqlite::Connection,
}

impl View for WordRepository {
    type V = Map<i64, WordRecord>;

    closed spec fn view(&self) -> Map<i64, WordRecord> {
        stored_words(self.conn)
    }
}

/// Milliseconds since the Unix epoch as stored in the table.
fn now_millis() -> (r: i64) {
    #[verifier::truncate]
    (crate::clock::now_ms() as i64)
}

impl WordRepository {
    /// The schema version of the database behind the repository.
    pub closed spec fn schema(&self) -> i64 {
        schema_version(self.conn)
    }

    /// Migrates the database behind the connection and keeps it: the
    /// repository is at the newest schema (a negative version is left as it
    /// is).
    pub fn from_connection(conn: rusqlite::Connection) -> (r: Result<WordRepository, StorageError>)
        ensures
            r matches Ok(repo) ==> repo@ == stored_words(conn),
            r matches Ok(repo) ==> repo.schema() == if schema_version(conn) < 0 {
                schema_version(conn)
            } else {
                LATEST_SCHEMA_VERSION
            },
            r matches Err(e) ==> e is Database || (e is UnsupportedSchema && schema_version(conn)
                > LATEST_SCHEMA_VERSION),
            schema_version(conn) > LATEST_SCHEMA_VERSION ==> r is Err,
    {
        let mut conn = conn;
        match migrate(&mut conn) {
            Ok(()) => Ok(WordRepository { conn }),
            Err(error) => Err(error),
        }
    }

    /// A repository over a new in-memory database: it holds no word.
    pub fn open_in_memory() -> (r: Result<WordRepository, StorageError>)
        ensures
            r matches Ok(repo) ==> repo@.dom() == Set::<i64>::empty(),
            r matches Err(e) ==> e is Database,
    {
        match open_memory_connection() {
            Ok(conn) => Self::from_connection(conn),
            Err(error) => Err(StorageError::Database(error)),
        }
    }
}


pub open spec fn saved_ids(words: Seq<SavedWord>) -> Seq<i64> {
    words.map_values(|w: SavedWord| w.id)
}

impl WordRepository {
    /// Saves a word; a saved word that the `word` column holds the same
    /// (`same_word`: for texts without NUL, equal but for ASCII case) is
    /// overwritten instead, keeping its id, its text and its creation time.
    /// A new word gets the id SQLite chooses: 1 in an empty table, else one
    /// more than the largest id.
    pub fn create(&mut self, new_word: NewWord) -> (r: Result<SavedWord, StorageError>)
        ensures
            trimmed(new_word.word@).len() == 0 <==> r matches Err(StorageError::Validation(_)),
            r matches Err(StorageError::Validation(m)) ==> m@ == "word must not be empty"@ && final(self)@
                == old(self)@,
            r matches Err(e) ==> e is Validation || e is Database,
            r matches Ok(saved) ==> upserted(
                old(self)@,
                final(self)@,
                saved.id,
                new_word_record(new_word, saved.updated_at),
            ) && saved_matches(saved, saved.id, final(self)@[saved.id]),
            r matches Ok(saved) ==> string_views(saved.synonyms@) == string_views(new_word.synonyms@)
                && json_string_list(final(self)@[saved.id].synonyms) == Some(string_views(new_word.synonyms@)),
    {
        let ghost initial = new_word;
        let new_word = match new_word.validated() {
            Ok(valid) => valid,
            Err(error) => return Err(error),
        };
        let synonyms = match write_json_list(&new_word.synonyms) {
            Ok(text) => text,
            Err(message) => return Err(StorageError::Validation(message)),
        };
        let now = now_millis();
        let mut texts: Vec<String> = Vec::new();
        texts.push(new_word.word);
        texts.push(new_word.word_translation);
        texts.push(new_word.meaning);
        texts.push(new_word.sentence);
        texts.push(new_word.sentence_translation);
        texts.push(new_word.part_of_speech);
        texts.push(new_word.topic);
        texts.push(synonyms);
        proof {
            assert(record_from_texts(string_views(texts@), now) == new_word_record(initial, now));
        }
        let row = match upsert_word_row(&mut self.conn, UPSERT_SQL, &texts, now) {
            Ok(row) => row,
            Err(error) => return Err(StorageError::Database(error)),
        };
        row_to_word(&row)
    }

    /// The word with this id.
    pub fn get(&self, id: i64) -> (r: Result<SavedWord, StorageError>)
        ensures
            r matches Ok(w) ==> self@.dom().contains(id) && saved_matches(w, id, self@[id]),
            r matches Err(e) ==> e is Database || (e matches StorageError::NotFound(i) && i == id
                && !self@.dom().contains(id)),
            !self@.dom().contains(id) ==> r is Err,
    {
        match select_word_row_by_id(&self.conn, SELECT_BY_ID_SQL, id) {
            Ok(Some(row)) => row_to_word(&row),
            Ok(None) => Err(StorageError::NotFound(id)),
            Err(error) => Err(StorageError::Database(error)),
        }
    }

    /// The saved word with this text (trimmed; compared as the `word` column
    /// compares, see `same_word`), if any.
    pub fn find_by_word(&self, word: &str) -> (r: Result<Option<SavedWord>, StorageError>)
        ensures
            r matches Ok(Some(w)) ==> self@.dom().contains(w.id) && same_word(self@[w.id].word, trimmed(word@))
                && saved_matches(w, w.id, self@[w.id]),
            r matches Ok(None) ==> !has_word(self@, trimmed(word@)),
            r matches Err(e) ==> e is Database,
    {
        let word = trim_string(word);
        match select_word_row_by_text(&self.conn, SELECT_BY_WORD_SQL, word.as_str()) {
            Ok(Some(row)) => match row_to_word(&row) {
                Ok(saved) => Ok(Some(saved)),
                Err(error) => Err(error),
            },
            Ok(None) => Ok(None),
            Err(error) => Err(StorageError::Database(error)),
        }
    }

    /// The saved words whose text or translation contains the trimmed
    /// search text (ASCII letters without case; `%`, `_` and `\` taken
    /// literally; texts are read up to a NUL, see `like_matches`), newest
    /// first; an empty search lists every word.
    pub fn list(&self, search: &str) -> (r: Result<Vec<SavedWord>, StorageError>)
        ensures
            r matches Ok(words) ==> (forall|i: int|
                0 <= i < words.len() ==> self@.dom().contains(#[trigger] words@[i].id) && saved_matches(
                    words@[i],
                    words@[i].id,
                    self@[words@[i].id],
                )) && search_listing(self@, trimmed(search@), saved_ids(words@)),
            r matches Err(e) ==> e is Database,
    {
        let search = trim_string(search);
        let pattern = search_pattern(search.as_str());
        let rows = match select_word_rows(&self.conn, SEARCH_SQL, pattern.as_str()) {
            Ok(rows) => rows,
            Err(error) => return Err(StorageError::Database(error)),
        };
        proof {
            assert(contains_pattern(search@) == pattern@);
        }
        let mut words: Vec<SavedWord> = Vec::new();
        let mut i: usize = 0;
        while i < rows.len()
            invariant
                i <= rows.len(),
                words.len() == i,
                forall|j: int|
                    0 <= j < i ==> #[trigger] words@[j].id == rows@[j].id && saved_matches(
                        words@[j],
                        rows@[j].id,
                        rows@[j].record(),
                    ),
            decreases rows.len() - i,
        {
            match row_to_word(&rows[i]) {
                Ok(saved) => words.push(saved),
                Err(error) => return Err(error),
            }
            i = i + 1;
        }
        assert(saved_ids(words@) == row_ids(rows@));
        Ok(words)
    }

    /// Replaces the translation and the meaning of the word with this id.
    pub fn update(&mut self, id: i64, changes: UpdateWord) -> (r: Result<SavedWord, StorageError>)
        ensures
            trimmed(changes.word_translation@).len() == 0 <==> r matches Err(StorageError::Validation(_)),
            r matches Err(StorageError::Validation(m)) ==> m@ == "translation must not be empty"@ && final(self)@
                == old(self)@,
            r matches Err(e) ==> e is Validation || e is Database || (e matches StorageError::NotFound(i) && i
                == id && !old(self)@.dom().contains(id) && final(self)@ == old(self)@),
            r matches Ok(w) ==> old(self)@.dom().contains(id) && final(self)@ == old(self)@.insert(
                id,
                edited(
                    old(self)@[id],
                    trimmed(changes.word_translation@),
                    trimmed(changes.meaning@),
                    w.updated_at,
                ),
            ) && saved_matches(w, id, final(self)@[id]),
            !old(self)@.dom().contains(id) ==> r is Err,
    {
        let changes = match changes.validated() {
            Ok(valid) => valid,
            Err(error) => return Err(error),
        };
        let now = now_millis();
        let updated = update_word_row(
            &mut self.conn,
            UPDATE_SQL,
            changes.word_translation.as_str(),
            changes.meaning.as_str(),
            now,
            id,
        );
        match updated {
            Ok(Some(row)) => row_to_word(&row),
            Ok(None) => Err(StorageError::NotFound(id)),
            Err(error) => Err(StorageError::Database(error)),
        }
    }

    /// Deletes the word with this id.
    pub fn delete(&mut self, id: i64) -> (r: Result<(), StorageError>)
        ensures
            r is Ok ==> old(self)@.dom().contains(id) && final(self)@ == old(self)@.remove(id),
            r matches Err(e) ==> e is Database || (e matches StorageError::NotFound(i) && i == id
                && !old(self)@.dom().contains(id) && final(self)@ == old(self)@),
            !old(self)@.dom().contains(id) ==> r is Err,
    {
        match delete_word_row(&mut self.conn, DELETE_SQL, id) {
            Ok(deleted) => {
                if deleted == 0 {
                    Err(StorageError::NotFound(id))
                } else {
                    Ok(())
                }
            },
            Err(error) => Err(StorageError::Database(error)),
        }
    }
}


// ---------------------------------------------------------------------------
// Laws
// ---------------------------------------------------------------------------

/// Saving a word keeps the words unique, and afterwards exactly one row
/// holds that word: the row whose id the save returned.
pub proof fn lemma_save_keeps_one_row_per_word(
    old: Map<i64, WordRecord>,
    new: Map<i64, WordRecord>,
    id: i64,
    f: WordRecord,
)
    requires
        words_unique(old),
        upserted(old, new, id, f),
    ensures
        words_unique(new),
        new.dom().contains(id),
        same_word(new[id].word, f.word),
        forall|k: i64| new.dom().contains(k) && same_word(#[trigger] new[k].word, f.word) ==> k == id,
{
    if has_word(old, f.word) {
        assert forall|k: i64| new.dom().contains(k) && same_word(#[trigger] new[k].word, f.word) implies k == id by {
            if k != id {
                assert(same_word(old[k].word, old[id].word));
            }
        }
        assert forall|a: i64, b: i64|
            new.dom().contains(a) && new.dom().contains(b) && same_word(
                #[trigger] new[a].word,
                #[trigger] new[b].word,
            ) implies a == b by {
            assert(same_word(old[a].word, old[b].word));
        }
    } else {
        assert forall|k: i64| new.dom().contains(k) && same_word(#[trigger] new[k].word, f.word) implies k == id by {
            if k != id {
                assert(old.dom().contains(k) && same_word(old[k].word, f.word));
            }
        }
        assert forall|a: i64, b: i64|
            new.dom().contains(a) && new.dom().contains(b) && same_word(
                #[trigger] new[a].word,
                #[trigger] new[b].word,
            ) implies a == b by {
            if a == id && b != id {
                assert(same_word(new[b].word, f.word));
            } else if b == id && a != id {
                assert(same_word(new[a].word, f.word));
            }
        }
    }
}

/// Saving the same word twice (`same_word`; for texts without NUL, in any
/// ASCII case) keeps one row: the
/// second save overwrites the row of the first, under the same id, with the
/// first text and creation time and the second save's other columns.
pub proof fn lemma_save_same_word_twice(
    m0: Map<i64, WordRecord>,
    m1: Map<i64, WordRecord>,
    id1: i64,
    f1: WordRecord,
    m2: Map<i64, WordRecord>,
    id2: i64,
    f2: WordRecord,
)
    requires
        words_unique(m0),
        upserted(m0, m1, id1, f1),
        upserted(m1, m2, id2, f2),
        same_word(f1.word, f2.word),
    ensures
        id2 == id1,
        m2.dom() == m1.dom(),
        m2[id2].word == m1[id1].word,
        m2[id2].created_at == m1[id1].created_at,
        m2[id2].word_translation == f2.word_translation,
        m2[id2].meaning == f2.meaning,
        m2[id2].synonyms == f2.synonyms,
{
    lemma_save_keeps_one_row_per_word(m0, m1, id1, f1);
    assert(same_word(m1[id1].word, f2.word));
    assert(has_word(m1, f2.word));
    assert(same_word(m1[id2].word, m1[id1].word));
    assert(m2.dom() =~= m1.dom());
}

/// What a save returns is what a later read of its id returns, as long as
/// the row is not changed in between.
pub proof fn lemma_read_after_save(
    old: Map<i64, WordRecord>,
    new: Map<i64, WordRecord>,
    saved: SavedWord,
    read: SavedWord,
    f: WordRecord,
)
    requires
        upserted(old, new, saved.id, f),
        saved_matches(saved, saved.id, new[saved.id]),
        saved_matches(read, saved.id, new[saved.id]),
    ensures
        new.dom().contains(saved.id),
        read.id == saved.id,
        read.word@ == saved.word@,
        read.word_translation@ == saved.word_translation@,
        read.meaning@ == saved.meaning@,
        read.sentence@ == saved.sentence@,
        read.sentence_translation@ == saved.sentence_translation@,
        read.part_of_speech@ == saved.part_of_speech@,
        read.topic@ == saved.topic@,
        string_views(read.synonyms@) == string_views(saved.synonyms@),
        read.created_at == saved.created_at,
        read.updated_at == saved.updated_at,
{
}

/// Editing the translation and meaning of a row, or deleting a row, keeps
/// the words unique.
pub proof fn lemma_edit_and_delete_keep_words_unique(
    m: Map<i64, WordRecord>,
    id: i64,
    word_translation: Seq<char>,
    meaning: Seq<char>,
    at: i64,
)
    requires
        words_unique(m),
        m.dom().contains(id),
    ensures
        words_unique(m.insert(id, edited(m[id], word_translation, meaning, at))),
        words_unique(m.remove(id)),
{
    let e = m.insert(id, edited(m[id], word_translation, meaning, at));
    assert forall|a: i64, b: i64|
        e.dom().contains(a) && e.dom().contains(b) && same_word(#[trigger] e[a].word, #[trigger] e[b].word)
            implies a == b by {
        assert(same_word(m[a].word, m[b].word));
    }
    let d = m.remove(id);
    assert forall|a: i64, b: i64|
        d.dom().contains(a) && d.dom().contains(b) && same_word(#[trigger] d[a].word, #[trigger] d[b].word)
            implies a == b by {
        assert(same_word(m[a].word, m[b].word));
    }
}

/// A search for the empty text lists every saved word.
pub proof fn lemma_empty_search_lists_every_word(m: Map<i64, WordRecord>, ids: Seq<i64>)
    requires
        search_listing(m, Seq::empty(), ids),
    ensures
        forall|id: i64| m.dom().contains(id) <==> ids.contains(id),
{
    assert forall|id: i64| m.dom().contains(id) implies ids.contains(id) by {
        let w = before_nul(m[id].word);
        let e = Seq::<char>::empty();
        assert(before_nul(e) == e);
        assert(fold_ascii_seq(w.subrange(0, 0 + e.len() as int)) =~= fold_ascii_seq(e));
        assert(contains_folded(w, e));
        assert(like_matches(m[id].word, e));
    }
    assert forall|id: i64| ids.contains(id) implies m.dom().contains(id) by {
        let i = choose|i: int| 0 <= i < ids.len() && ids[i] == id;
        assert(m.dom().contains(ids[i]));
    }
}

} // verus!
