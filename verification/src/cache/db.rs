//! The cache store. An SQLite database holds one fingerprint row per path
//! and one item row per cached annotation; the store's contents are modelled
//! as two maps, and every SQL statement sits behind a trusted wrapper whose
//! contract updates those maps. Freshness checks, row encoding and the
//! replace-on-store discipline are verified against that model.

use vstd::prelude::*;
use crate::model::{Priority, TodoItem, TodoTag, priority_of_token, tag_text, tag_of_text,
    is_fixed_tag_text};

verus! {

broadcast use vstd::string::group_string_axioms;

/// One stored item row, keyed externally by its file path.
#[derive(Debug, Clone)]
pub struct CacheRow {
    pub line: u64,
    pub col: u64,
    pub tag: String,
    pub message: String,
    pub author: Option<String>,
    pub issue: Option<String>,
    pub priority: Option<String>,
    pub context_line: String,
}

/// A handle on the cache database. The underlying connection is opaque;
/// its observable contents are given by `fp_of` and `rows_of`.
#[verifier::external_body]
pub struct CacheDb {
    conn: rusqlite::Connection,
}

/// The fingerprint table's contents: path to (mtime, size).
pub uninterp spec fn fp_of(db: CacheDb) -> Map<Seq<char>, (u64, u64)>;

/// The item table's contents: path to its rows, in insertion order.
pub uninterp spec fn rows_of(db: CacheDb) -> Map<Seq<char>, Seq<CacheRow>>;

/// Both content maps of a database are empty.
pub open spec fn cache_is_empty(db: CacheDb) -> bool {
    fp_of(db) == Map::<Seq<char>, (u64, u64)>::empty() && rows_of(db) == Map::<
        Seq<char>,
        Seq<CacheRow>,
    >::empty()
}

/// The schema: a fingerprint row per path, an item row per annotation, and
/// a small metadata table.
const MIGRATIONS_SQL: &'static str = "
    CREATE TABLE IF NOT EXISTS scan_meta (
        key TEXT PRIMARY KEY,
        value TEXT NOT NULL
    );
    CREATE TABLE IF NOT EXISTS file_fingerprints (
        path TEXT PRIMARY KEY,
        mtime INTEGER NOT NULL,
        size INTEGER NOT NULL,
        hash TEXT
    );
    CREATE TABLE IF NOT EXISTS todos (
        id INTEGER PRIMARY KEY AUTOINCREMENT,
        file_path TEXT NOT NULL,
        line INTEGER NOT NULL,
        col INTEGER NOT NULL,
        tag TEXT NOT NULL,
        message TEXT NOT NULL,
        author TEXT,
        issue TEXT,
        priority TEXT,
        context_line TEXT NOT NULL
    );
    CREATE INDEX IF NOT EXISTS idx_todos_file ON todos(file_path);
";

/// Relies on rusqlite's Connection::open and execute_batch: opens or
/// creates the database file at `path` (whose directory must exist) and
/// creates the tables if they are missing. The file may already hold
/// fingerprints and rows, so nothing is promised of the contents.
#[verifier::external_body]
fn sql_open(path: &str) -> Result<CacheDb, String> {
    let conn = rusqlite::Connection::open(path).map_err(|e| e.to_string())?;
    conn.pragma_update(None, "journal_mode", "WAL").map_err(|e| e.to_string())?;
    conn.execute_batch(MIGRATIONS_SQL).map_err(|e| e.to_string())?;
    Ok(CacheDb { conn })
}

/// Relies on rusqlite's Connection::open_in_memory: a fresh database holds
/// no rows, so both tables start empty.
#[verifier::external_body]
fn sql_open_in_memory() -> (r: Result<CacheDb, String>)
    ensures
        r is Ok ==> cache_is_empty(r->Ok_0),
{
    let conn = rusqlite::Connection::open_in_memory().map_err(|e| e.to_string())?;
    conn.execute_batch(MIGRATIONS_SQL).map_err(|e| e.to_string())?;
    Ok(CacheDb { conn })
}

/// Relies on rusqlite's query_row: a SELECT on the primary key returns the
/// stored pair, or QueryReturnedNoRows exactly when the path has no row.
/// A database failure can at worst return a value other than the model's,
/// never corrupt the model; the contract reads the model as the source of
/// truth for a healthy store.
#[verifier::external_body]
fn sql_get_fingerprint(db: &CacheDb, path: &str) -> (r: Option<(u64, u64)>)
    ensures
        r == (if fp_of(*db).contains_key(path@) {
            Some(fp_of(*db)[path@])
        } else {
            None::<(u64, u64)>
        }),
{
    let res: Result<(i64, i64), _> = db.conn.query_row(
        "SELECT mtime, size FROM file_fingerprints WHERE path = ?1",
        [path],
        |row| Ok((row.get(0)?, row.get(1)?)),
    );
    match res {
        Ok((m, s)) => Some((m as u64, s as u64)),
        Err(_) => None,
    }
}

/// Relies on rusqlite's execute: INSERT OR REPLACE upserts exactly the one
/// fingerprint row, atomically; the item table is untouched.
#[verifier::external_body]
fn sql_set_fingerprint(db: &mut CacheDb, path: &str, mtime: u64, size: u64) -> (r: Result<
    (),
    String,
>)
    ensures
        r is Ok ==> fp_of(*final(db)) == fp_of(*old(db)).insert(path@, (mtime, size)),
        r is Ok ==> rows_of(*final(db)) == rows_of(*old(db)),
        r is Err ==> fp_of(*final(db)) == fp_of(*old(db)) && rows_of(*final(db)) == rows_of(
            *old(db),
        ),
{
    db.conn
        .execute(
            "INSERT OR REPLACE INTO file_fingerprints (path, mtime, size) VALUES (?1, ?2, ?3)",
            (path, mtime as i64, size as i64),
        )
        .map(|_| ())
        .map_err(|e| e.to_string())
}

/// Relies on rusqlite's execute: one DELETE removes every item row of the
/// path, atomically; the fingerprint table is untouched.
#[verifier::external_body]
fn sql_delete_rows(db: &mut CacheDb, path: &str) -> (r: Result<(), String>)
    ensures
        r is Ok ==> rows_of(*final(db)) == rows_of(*old(db)).remove(path@),
        r is Ok ==> fp_of(*final(db)) == fp_of(*old(db)),
        r is Err ==> fp_of(*final(db)) == fp_of(*old(db)) && rows_of(*final(db)) == rows_of(
            *old(db),
        ),
{
    db.conn
        .execute("DELETE FROM todos WHERE file_path = ?1", [path])
        .map(|_| ())
        .map_err(|e| e.to_string())
}

/// Relies on rusqlite's execute: one INSERT appends one item row for the
/// path; AUTOINCREMENT ids make insertion order the rowid order.
#[verifier::external_body]
fn sql_insert_row(db: &mut CacheDb, path: &str, row: &CacheRow) -> (r: Result<(), String>)
    ensures
        r is Ok ==> rows_of(*final(db)) == rows_of(*old(db)).insert(
            path@,
            (if rows_of(*old(db)).contains_key(path@) {
                rows_of(*old(db))[path@]
            } else {
                Seq::empty()
            }).push(*row),
        ),
        r is Ok ==> fp_of(*final(db)) == fp_of(*old(db)),
        r is Err ==> fp_of(*final(db)) == fp_of(*old(db)) && rows_of(*final(db)) == rows_of(
            *old(db),
        ),
{
    let q = "INSERT INTO todos (file_path, line, col, tag, message, author, issue, priority, context_line) \
             VALUES (?1, ?2, ?3, ?4, ?5, ?6, ?7, ?8, ?9)";
    db.conn
        .execute(
            q,
            (path, row.line as i64, row.col as i64, &row.tag, &row.message, &row.author,
                &row.issue, &row.priority, &row.context_line),
        )
        .map(|_| ())
        .map_err(|e| e.to_string())
}

/// Relies on rusqlite's prepare and query_map: a SELECT ordered by rowid
/// returns the path's rows in insertion order, and nothing on any failure.
/// A database failure can at worst return a value other than the model's,
/// never corrupt the model, so the contract reads the model as the source
/// of truth for a healthy store.
#[verifier::external_body]
fn sql_get_rows(db: &CacheDb, path: &str) -> (r: Vec<CacheRow>)
    ensures
        r@ == (if rows_of(*db).contains_key(path@) {
            rows_of(*db)[path@]
        } else {
            Seq::<CacheRow>::empty()
        }),
{
    let q = "SELECT line, col, tag, message, author, issue, priority, context_line \
             FROM todos WHERE file_path = ?1 ORDER BY id";
    let collect = |stmt: &mut rusqlite::Statement| {
        stmt.query_map([path], |row| {
            Ok(CacheRow {
                line: row.get::<_, i64>(0)? as u64, col: row.get::<_, i64>(1)? as u64,
                tag: row.get(2)?, message: row.get(3)?, author: row.get(4)?,
                issue: row.get(5)?, priority: row.get(6)?, context_line: row.get(7)?,
            })
        })
        .map(|rows| rows.filter_map(|x| x.ok()).collect::<Vec<CacheRow>>())
    };
    db.conn.prepare(q).and_then(|mut stmt| collect(&mut stmt)).unwrap_or_default()
}

/// Relies on rusqlite's execute_batch: the DELETE statements empty all
/// three tables.
#[verifier::external_body]
fn sql_clear(db: &mut CacheDb) -> (r: Result<(), String>)
    ensures
        r is Ok ==> cache_is_empty(*final(db)),
{
    db.conn
        .execute_batch("DELETE FROM todos; DELETE FROM file_fingerprints; DELETE FROM scan_meta;")
        .map_err(|e| e.to_string())
}

/// The rows a map stores for a path, none meaning the empty sequence.
pub open spec fn stored_rows(m: Map<Seq<char>, Seq<CacheRow>>, path: Seq<char>) -> Seq<CacheRow> {
    if m.contains_key(path) {
        m[path]
    } else {
        Seq::empty()
    }
}

/// A stored fingerprint for the path exists and matches both fields.
pub open spec fn fresh_in(fp: Map<Seq<char>, (u64, u64)>, path: Seq<char>, mtime: u64, size: u64)
    -> bool {
    fp.contains_key(path) && fp[path] == (mtime, size)
}

/// One row faithfully records one item: every field of the item appears in
/// the row, with the tag as its display text and the priority under its
/// canonical lower-case name.
pub open spec fn row_encodes_item(r: CacheRow, it: TodoItem) -> bool {
    &&& r.line == it.line as u64
    &&& r.col == it.column as u64
    &&& r.tag@ == tag_text(it.tag)
    &&& r.message@ == it.message@
    &&& (match (r.author, it.author) {
        (Some(a), Some(b)) => a@ == b@,
        (None, None) => true,
        _ => false,
    })
    &&& (match (r.issue, it.issue) {
        (Some(a), Some(b)) => a@ == b@,
        (None, None) => true,
        _ => false,
    })
    &&& (match (r.priority, it.priority) {
        (Some(p), Some(Priority::Low)) => p@ == "low"@,
        (Some(p), Some(Priority::Medium)) => p@ == "medium"@,
        (Some(p), Some(Priority::High)) => p@ == "high"@,
        (Some(p), Some(Priority::Critical)) => p@ == "critical"@,
        (None, None) => true,
        _ => false,
    })
    &&& r.context_line@ == it.context_line@
}

pub open spec fn rows_encode_items(rows: Seq<CacheRow>, items: Seq<TodoItem>) -> bool {
    rows.len() == items.len() && forall|j: int|
        0 <= j < rows.len() ==> row_encodes_item(#[trigger] rows[j], items[j])
}

/// One decoded item reads one row back: the tag text is re-parsed against
/// the fixed vocabulary, the priority against its aliases, and the path is
/// the lookup key; git enrichment is never cached.
pub open spec fn item_decodes_row(it: TodoItem, path: Seq<char>, r: CacheRow) -> bool {
    &&& it.file@ == path
    &&& it.line == r.line as usize
    &&& it.column == r.col as usize
    &&& tag_text(it.tag) == tag_of_text(r.tag@)
    &&& (it.tag is Custom <==> !is_fixed_tag_text(crate::strutil::upper_chars(r.tag@)))
    &&& it.message@ == r.message@
    &&& (match (it.author, r.author) {
        (Some(a), Some(b)) => a@ == b@,
        (None, None) => true,
        _ => false,
    })
    &&& (match (it.issue, r.issue) {
        (Some(a), Some(b)) => a@ == b@,
        (None, None) => true,
        _ => false,
    })
    &&& it.priority == (match r.priority {
        Some(p) => priority_of_token(p@),
        None => None,
    })
    &&& it.context_line@ == r.context_line@
    &&& it.git_author is None
    &&& it.git_date is None
}

pub open spec fn items_decode_rows(items: Seq<TodoItem>, path: Seq<char>, rows: Seq<CacheRow>)
    -> bool {
    items.len() == rows.len() && forall|j: int|
        0 <= j < items.len() ==> item_decodes_row(#[trigger] items[j], path, rows[j])
}

fn clone_opt_string(v: &Option<String>) -> (r: Option<String>)
    ensures
        r == *v,
{
    match v {
        Some(s) => Some(s.clone()),
        None => None,
    }
}

/// Encodes one item as a row.
fn encode_row(it: &TodoItem) -> (r: CacheRow)
    ensures
        row_encodes_item(r, *it),
{
    let priority: Option<String> = match &it.priority {
        Some(p) => Some(
            String::from_str(
                match p {
                    Priority::Low => "low",
                    Priority::Medium => "medium",
                    Priority::High => "high",
                    Priority::Critical => "critical",
                },
            ),
        ),
        None => None,
    };
    CacheRow {
        line: it.line as u64,
        col: it.column as u64,
        tag: String::from_str(it.tag.as_str()),
        message: it.message.clone(),
        author: clone_opt_string(&it.author),
        issue: clone_opt_string(&it.issue),
        priority,
        context_line: it.context_line.clone(),
    }
}

/// Decodes one row back into an item.
fn decode_row(path: &str, r: &CacheRow) -> (it: TodoItem)
    ensures
        item_decodes_row(it, path@, *r),
{
    let priority: Option<Priority> = match &r.priority {
        Some(p) => Priority::from_str_tag(p.as_str()),
        None => None,
    };
    TodoItem {
        tag: TodoTag::from_str(r.tag.as_str()),
        message: r.message.clone(),
        file: String::from_str(path),
        line: r.line as usize,
        column: r.col as usize,
        author: clone_opt_string(&r.author),
        issue: clone_opt_string(&r.issue),
        priority,
        context_line: r.context_line.clone(),
        git_author: None,
        git_date: None,
    }
}

impl CacheDb {
    /// Opens or creates the cache database file at `path`; the directory
    /// holding it must already exist. Existing contents are kept.
    pub fn open(path: &str) -> Result<CacheDb, String> {
        sql_open(path)
    }

    /// Opens a fresh private database.
    pub fn open_in_memory() -> (r: Result<CacheDb, String>)
        ensures
            r matches Ok(db) ==> cache_is_empty(db),
    {
        sql_open_in_memory()
    }

    /// True exactly when a stored fingerprint for the path matches both the
    /// modification time and the size. A path never stored is never fresh.
    pub fn is_file_fresh(&self, path: &str, mtime: u64, size: u64) -> (r: bool)
        ensures
            r == fresh_in(fp_of(*self), path@, mtime, size),
    {
        match sql_get_fingerprint(self, path) {
            Some((m, s)) => m == mtime && s == size,
            None => false,
        }
    }

    /// The items stored for a path, in stored order; empty when the path
    /// has none.
    pub fn get_todos(&self, path: &str) -> (items: Vec<TodoItem>)
        ensures
            items_decode_rows(items@, path@, stored_rows(rows_of(*self), path@)),
    {
        let rows = sql_get_rows(self, path);
        let n = rows.len();
        let mut items: Vec<TodoItem> = Vec::new();
        let mut i: usize = 0;
        while i < n
            invariant
                n == rows@.len(),
                i <= n,
                items@.len() == i,
                forall|j: int|
                    0 <= j < i ==> item_decodes_row(#[trigger] items@[j], path@, rows@[j]),
            decreases n - i,
        {
            let it = decode_row(path, &rows[i]);
            items.push(it);
            i += 1;
        }
        items
    }

    /// Replaces the full item set and then the fingerprint for the path:
    /// on success the stored fingerprint is exactly (mtime, size), the
    /// stored rows encode exactly `items` in order, and no other path's
    /// entries change. The fingerprint is written only after every row, so
    /// a failure leaves the old fingerprint in place and can never vouch
    /// for a partial row set; on failure the error text is returned, the
    /// fingerprint is unchanged and other paths' rows are untouched.
    pub fn store_file(&mut self, path: &str, mtime: u64, size: u64, items: &Vec<TodoItem>)
        -> (r: Result<(), String>)
        ensures
            r is Ok ==> {
                &&& fp_of(*final(self)) == fp_of(*old(self)).insert(path@, (mtime, size))
                &&& rows_encode_items(stored_rows(rows_of(*final(self)), path@), items@)
                &&& rows_of(*final(self)).remove(path@) == rows_of(*old(self)).remove(path@)
            },
            r is Err ==> {
                &&& fp_of(*final(self)) == fp_of(*old(self))
                &&& rows_of(*final(self)).remove(path@) == rows_of(*old(self)).remove(path@)
            },
    {
        match sql_delete_rows(self, path) {
            Ok(_) => {},
            Err(e) => {
                return Err(e);
            },
        }
        let ghost base_rows = rows_of(*self);
        let n = items.len();
        let mut i: usize = 0;
        while i < n
            invariant
                n == items@.len(),
                i <= n,
                fp_of(*self) == fp_of(*old(self)),
                base_rows == rows_of(*old(self)).remove(path@),
                i == 0 ==> rows_of(*self) == base_rows,
                i > 0 ==> {
                    &&& rows_of(*self).contains_key(path@)
                    &&& rows_of(*self) == base_rows.insert(path@, rows_of(*self)[path@])
                    &&& rows_encode_items(rows_of(*self)[path@], items@.subrange(0, i as int))
                },
            decreases n - i,
        {
            let row = encode_row(&items[i]);
            let ghost before = rows_of(*self);
            match sql_insert_row(self, path, &row) {
                Ok(_) => {},
                Err(e) => {
                    proof {
                        assert(rows_of(*self).remove(path@) =~= rows_of(*old(self)).remove(
                            path@,
                        ));
                    }
                    return Err(e);
                },
            }
            proof {
                let cur = if before.contains_key(path@) {
                    before[path@]
                } else {
                    Seq::<CacheRow>::empty()
                };
                assert(rows_of(*self) == before.insert(path@, cur.push(row)));
                if i == 0 {
                    assert(!base_rows.contains_key(path@));
                    assert(cur =~= Seq::<CacheRow>::empty());
                    assert(rows_of(*self)[path@] =~= seq![row]);
                    assert(rows_encode_items(rows_of(*self)[path@], items@.subrange(0, 1)));
                    assert(rows_of(*self) =~= base_rows.insert(path@, rows_of(*self)[path@]));
                } else {
                    assert(cur == before[path@]);
                    assert(rows_of(*self)[path@] == cur.push(row));
                    assert(rows_encode_items(cur, items@.subrange(0, i as int)));
                    assert forall|j: int| 0 <= j < i + 1 implies row_encodes_item(
                        #[trigger] rows_of(*self)[path@][j],
                        items@.subrange(0, i + 1)[j],
                    ) by {
                        if j < i {
                            assert(rows_of(*self)[path@][j] == cur[j]);
                            assert(items@.subrange(0, i + 1)[j] == items@.subrange(0, i as int)[j]);
                        } else {
                            assert(rows_of(*self)[path@][j] == row);
                        }
                    }
                    assert(rows_encode_items(
                        rows_of(*self)[path@],
                        items@.subrange(0, i + 1),
                    ));
                    assert(rows_of(*self) =~= base_rows.insert(path@, rows_of(*self)[path@]));
                }
            }
            i += 1;
        }
        proof {
            assert(rows_of(*self).remove(path@) =~= rows_of(*old(self)).remove(path@));
        }
        match sql_set_fingerprint(self, path, mtime, size) {
            Ok(_) => {},
            Err(e) => {
                return Err(e);
            },
        }
        proof {
            if n == 0 {
                assert(rows_of(*self) == base_rows);
                assert(!rows_of(*self).contains_key(path@));
                assert(stored_rows(rows_of(*self), path@) =~= Seq::<CacheRow>::empty());
            } else {
                assert(items@.subrange(0, n as int) =~= items@);
            }
            assert(rows_of(*self).remove(path@) =~= rows_of(*old(self)).remove(path@));
        }
        Ok(())
    }

    /// Empties the cache entirely: on success no fingerprints and no items
    /// remain.
    pub fn clear(&mut self) -> (r: Result<(), String>)
        ensures
            r is Ok ==> cache_is_empty(*final(self)),
    {
        sql_clear(self)
    }
}

/// The freshness discipline: storing a fingerprint makes exactly that
/// (mtime, size) pair fresh for the path; any change to either field is
/// stale.
pub proof fn lemma_store_freshness(
    fp: Map<Seq<char>, (u64, u64)>,
    path: Seq<char>,
    mtime: u64,
    size: u64,
)
    ensures
        fresh_in(fp.insert(path, (mtime, size)), path, mtime, size),
        forall|m2: u64, s2: u64|
            (m2 != mtime || s2 != size) ==> !fresh_in(fp.insert(path, (mtime, size)), path, m2, s2),
{
}

} // verus!
