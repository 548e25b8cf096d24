//! The SQLite store: a connection, the values that cross the boundary to
//! SQLite, and the decoding of result columns into Rust values.

pub mod dao;

use rusqlite::types::Value as V;
use vstd::prelude::*;
use vstd::string::StringExecFns;

verus! {

#[verifier::external_type_specification]
#[verifier::external_body]
pub struct ExConnection(rusqlite::Connection);

#[verifier::external_type_specification]
#[verifier::external_body]
pub struct ExSqliteError(rusqlite::Error);

#[verifier::external_type_specification]
#[verifier::external_body]
pub struct ExSqliteValue(rusqlite::types::Value);

/// The error type of the data access layer.
#[derive(Debug)]
pub enum AppError {
    /// A statement failed, or a result column did not hold what was expected.
    Database(String),
}

/// A value bound to a `?N` placeholder of a statement.
#[derive(Debug)]
pub enum SqlParam {
    Null,
    Integer(i64),
    Text(String),
}

/// A value read from a result column. A `REAL` column is recorded without its
/// number: no column that this library reads holds one.
#[derive(Debug)]
pub enum SqlValue {
    Null,
    Integer(i64),
    Real,
    Text(String),
    Blob(Vec<u8>),
}

/// Handle to the application database.
pub struct Database {
    conn: rusqlite::Connection,
    log: Ghost<Seq<DbEvent>>,
}

/// One exchange with SQLite, as the handle records it: the statement and its
/// parameters, and what came back.
pub ghost enum DbEvent {
    /// A statement that changes the database; whether it succeeded.
    Execute { sql: Seq<char>, params: Seq<SqlParam>, ok: bool },
    /// A query; its rows, or `None` where it failed.
    Query { sql: Seq<char>, params: Seq<SqlParam>, rows: Option<Seq<Seq<SqlValue>>> },
    /// A script of statements; whether it succeeded.
    Script { sql: Seq<char>, ok: bool },
}

/// The views of the rows.
pub open spec fn rows_view(rows: Seq<Vec<SqlValue>>) -> Seq<Seq<SqlValue>> {
    rows.map_values(|r: Vec<SqlValue>| r@)
}

/// Whether the parameters bind exactly the texts `ts`, in order.
pub open spec fn binds_texts(p: Seq<SqlParam>, ts: Seq<Seq<char>>) -> bool {
    &&& p.len() == ts.len()
    &&& forall|i: int| 0 <= i < ts.len() ==> binds_text(#[trigger] p[i], ts[i])
}

/// Whether `e` is the query `sql` with the texts `ts` bound.
pub open spec fn is_query(e: DbEvent, sql: Seq<char>, ts: Seq<Seq<char>>) -> bool {
    e matches DbEvent::Query { sql: s, params, .. } && s == sql && binds_texts(params, ts)
}

/// Whether `e` is the statement `sql` with the texts `ts` bound.
pub open spec fn is_execute(e: DbEvent, sql: Seq<char>, ts: Seq<Seq<char>>) -> bool {
    e matches DbEvent::Execute { sql: s, params, .. } && s == sql && binds_texts(params, ts)
}

/// The rows a query gave back (`None` for a failed query or any other event).
pub open spec fn rows_of(e: DbEvent) -> Option<Seq<Seq<SqlValue>>> {
    match e {
        DbEvent::Query { rows, .. } => rows,
        _ => None,
    }
}

/// Whether a statement or script succeeded (or a query gave rows).
pub open spec fn succeeded(e: DbEvent) -> bool {
    match e {
        DbEvent::Execute { ok, .. } => ok,
        DbEvent::Query { rows, .. } => rows is Some,
        DbEvent::Script { ok, .. } => ok,
    }
}

/// Whether `after` is `before` followed by `n` more events.
pub open spec fn appended(before: Seq<DbEvent>, after: Seq<DbEvent>, n: int) -> bool {
    &&& after.len() == before.len() + n
    &&& after.take(before.len() as int) =~= before
}

/// One more event keeps what came before and adds itself to the new events.
pub proof fn lemma_appended_one(start: Seq<DbEvent>, before: Seq<DbEvent>, after: Seq<DbEvent>)
    requires
        appended(before, after, 1),
        start.len() <= before.len(),
        before.take(start.len() as int) == start,
    ensures
        after.take(start.len() as int) == start,
        new_events(start, after) == new_events(start, before).push(after.last()),
        after == before.push(after.last()),
{
    assert(after =~= before.push(after.last())) by {
        assert forall|i: int| 0 <= i < before.len() implies after[i] == before[i] by {
            assert(after.take(before.len() as int)[i] == after[i]);
        }
    }
    assert(after.take(start.len() as int) =~= start) by {
        assert forall|i: int| 0 <= i < start.len() implies after[i] == start[i] by {
            assert(before.take(start.len() as int)[i] == before[i]);
        }
    }
    assert(new_events(start, after) =~= new_events(start, before).push(after.last()));
}

/// The new events of a longer stretch are those of its two parts, in order.
pub proof fn lemma_new_events_split(start: Seq<DbEvent>, mid: Seq<DbEvent>, end: Seq<DbEvent>)
    requires
        start.len() <= mid.len() <= end.len(),
        mid.take(start.len() as int) == start,
        end.take(mid.len() as int) == mid,
    ensures
        end.take(start.len() as int) == start,
        new_events(start, end) == new_events(start, mid) + new_events(mid, end),
{
    assert(end.take(start.len() as int) =~= start) by {
        assert forall|i: int| 0 <= i < start.len() implies end[i] == start[i] by {
            assert(end.take(mid.len() as int)[i] == end[i]);
            assert(mid.take(start.len() as int)[i] == mid[i]);
        }
    }
    assert(new_events(start, end) =~= new_events(start, mid) + new_events(mid, end)) by {
        assert forall|j: int| start.len() <= j < mid.len() implies #[trigger] end[j] == mid[j] by {
            assert(end.take(mid.len() as int)[j] == end[j]);
        }
    }
}

/// The events of `after` beyond `before`.
pub open spec fn new_events(before: Seq<DbEvent>, after: Seq<DbEvent>) -> Seq<DbEvent> {
    after.skip(before.len() as int)
}

/// Whether every event is a query: nothing was written.
pub open spec fn only_reads(events: Seq<DbEvent>) -> bool {
    forall|i: int| 0 <= i < events.len() ==> #[trigger] events[i] is Query
}

/// Column 0 of every row as text, where every row holds text there.
pub open spec fn column_texts(rows: Seq<Seq<SqlValue>>) -> Option<Seq<Seq<char>>> {
    if forall|i: int| 0 <= i < rows.len() ==> #[trigger] text_at(rows[i], 0) is Some {
        Some(Seq::new(rows.len(), |i: int| text_at(rows[i], 0)->0))
    } else {
        None
    }
}

/// Whether `res` is the column of texts that the rows of the query `e`
/// give: an error where the query failed or a row holds no text.
pub open spec fn texts_result<E>(e: DbEvent, res: Result<Vec<String>, E>) -> bool {
    match rows_of(e) {
        Some(rows) => match column_texts(rows) {
            Some(ts) => res matches Ok(v) && v.deep_view() == ts,
            None => res is Err,
        },
        None => res is Err,
    }
}

/// Converts the parameters to the values `rusqlite` binds, one for one.
#[verifier::external_body]
fn bound_values(params: &Vec<SqlParam>) -> (res: Vec<V>) {
    params.iter().map(|p| match p {
        SqlParam::Null => V::Null,
        SqlParam::Integer(i) => V::Integer(*i),
        SqlParam::Text(s) => V::Text(s.clone()),
    }).collect()
}

/// `rusqlite::Connection::execute`: runs one statement with its parameters
/// bound in order and returns the number of changed rows. What it returns
/// depends on what the database holds, so nothing is stated of it.
#[verifier::external_body]
fn sqlite_execute(conn: &rusqlite::Connection, sql: &str, params: &Vec<SqlParam>) -> (res: Result<
    usize,
    rusqlite::Error,
>) {
    conn.execute(sql, rusqlite::params_from_iter(bound_values(params)))
}

/// `rusqlite::Connection::prepare`, then `Statement::query_map` with the
/// parameters bound in order, reading each of the statement's
/// `column_count()` columns of a row as a `rusqlite::types::Value` (converted
/// one for one by `column_value`), collected until rusqlite reports the last
/// row. The rows depend on what the database holds; the contract states only
/// that every row has the same number of columns. The rows are collected
/// here, not in a verified loop, because their number is not known before
/// the last one has been read.
#[verifier::external_body]
fn sqlite_query(conn: &rusqlite::Connection, sql: &str, params: &Vec<SqlParam>) -> (res: Result<
    Vec<Vec<SqlValue>>,
    rusqlite::Error,
>)
    ensures
        res matches Ok(rows) ==> forall|i: int, j: int|
            0 <= i < rows.len() && 0 <= j < rows.len() ==> #[trigger] rows[i].len()
                == #[trigger] rows[j].len(),
{
    let mut stmt = conn.prepare(sql)?;
    let n = stmt.column_count();
    let rows = stmt.query_map(rusqlite::params_from_iter(bound_values(params)), |row| (0..n).map(|i| row.get::<usize, V>(i).map(column_value)).collect())?;
    rows.collect()
}

/// Converts a column value read by `rusqlite` to the library's, one for
/// one (a `REAL` loses its number).
#[verifier::external_body]
fn column_value(v: V) -> (res: SqlValue) {
    match v {
        V::Null => SqlValue::Null,
        V::Integer(i) => SqlValue::Integer(i),
        V::Real(_) => SqlValue::Real,
        V::Text(s) => SqlValue::Text(s),
        V::Blob(b) => SqlValue::Blob(b),
    }
}

/// `rusqlite::Connection::execute_batch`: runs a script of statements.
#[verifier::external_body]
fn sqlite_execute_batch(conn: &rusqlite::Connection, sql: &str) -> (res: Result<(), rusqlite::Error>) {
    conn.execute_batch(sql)
}

/// The `Display` text of a `rusqlite::Error`. Nothing is stated of the text.
#[verifier::external_body]
fn sqlite_error_text(e: &rusqlite::Error) -> (res: String) {
    e.to_string()
}

/// Maps an error of the SQLite layer to the library's own error.
fn db_error(e: rusqlite::Error) -> (res: AppError)
    ensures
        res is Database,
{
    AppError::Database(sqlite_error_text(&e))
}

/// The text in column `i` of a row, where that column exists and holds text.
pub open spec fn text_at(row: Seq<SqlValue>, i: int) -> Option<Seq<char>> {
    if 0 <= i < row.len() {
        match row[i] {
            SqlValue::Text(s) => Some(s@),
            _ => None,
        }
    } else {
        None
    }
}

/// Column `i` read as an optional text: `NULL` is `None`, text is `Some`.
pub open spec fn opt_text_at(row: Seq<SqlValue>, i: int) -> Option<Option<Seq<char>>> {
    if 0 <= i < row.len() {
        match row[i] {
            SqlValue::Null => Some(None),
            SqlValue::Text(s) => Some(Some(s@)),
            _ => None,
        }
    } else {
        None
    }
}

/// Column `i` read as an integer.
pub open spec fn int_at(row: Seq<SqlValue>, i: int) -> Option<i64> {
    if 0 <= i < row.len() {
        match row[i] {
            SqlValue::Integer(n) => Some(n),
            _ => None,
        }
    } else {
        None
    }
}

/// Column `i` read as an optional integer.
pub open spec fn opt_int_at(row: Seq<SqlValue>, i: int) -> Option<Option<i64>> {
    if 0 <= i < row.len() {
        match row[i] {
            SqlValue::Null => Some(None),
            SqlValue::Integer(n) => Some(Some(n)),
            _ => None,
        }
    } else {
        None
    }
}

/// Column `i` read as a boolean: an integer other than zero is `true`.
pub open spec fn bool_at(row: Seq<SqlValue>, i: int) -> Option<bool> {
    match int_at(row, i) {
        Some(n) => Some(n != 0),
        None => None,
    }
}

/// The view of an optional string.
pub open spec fn opt_view(o: Option<String>) -> Option<Seq<char>> {
    match o {
        Some(s) => Some(s@),
        None => None,
    }
}

fn column_error() -> (e: AppError)
    ensures
        e matches AppError::Database(m) && m@ == "invalid column index or column type"@,
{
    AppError::Database(String::from_str("invalid column index or column type"))
}

/// Reads column `i` as text.
pub fn column_text(row: &Vec<SqlValue>, i: usize) -> (res: Result<String, AppError>)
    ensures
        match res {
            Ok(s) => text_at(row@, i as int) == Some(s@),
            Err(e) => text_at(row@, i as int) is None && e is Database,
        },
{
    if i < row.len() {
        match &row[i] {
            SqlValue::Text(s) => {
                return Ok(s.clone());
            },
            _ => {},
        }
    }
    Err(column_error())
}

/// Reads column `i` as optional text.
pub fn column_opt_text(row: &Vec<SqlValue>, i: usize) -> (res: Result<Option<String>, AppError>)
    ensures
        match res {
            Ok(o) => opt_text_at(row@, i as int) == Some(opt_view(o)),
            Err(e) => opt_text_at(row@, i as int) is None && e is Database,
        },
{
    if i < row.len() {
        match &row[i] {
            SqlValue::Null => {
                return Ok(None);
            },
            SqlValue::Text(s) => {
                return Ok(Some(s.clone()));
            },
            _ => {},
        }
    }
    Err(column_error())
}

/// Reads column `i` as an integer.
pub fn column_int(row: &Vec<SqlValue>, i: usize) -> (res: Result<i64, AppError>)
    ensures
        match res {
            Ok(n) => int_at(row@, i as int) == Some(n),
            Err(e) => int_at(row@, i as int) is None && e is Database,
        },
{
    if i < row.len() {
        match &row[i] {
            SqlValue::Integer(n) => {
                return Ok(*n);
            },
            _ => {},
        }
    }
    Err(column_error())
}

/// Reads column `i` as an optional integer.
pub fn column_opt_int(row: &Vec<SqlValue>, i: usize) -> (res: Result<Option<i64>, AppError>)
    ensures
        match res {
            Ok(o) => opt_int_at(row@, i as int) == Some(o),
            Err(e) => opt_int_at(row@, i as int) is None && e is Database,
        },
{
    if i < row.len() {
        match &row[i] {
            SqlValue::Null => {
                return Ok(None);
            },
            SqlValue::Integer(n) => {
                return Ok(Some(*n));
            },
            _ => {},
        }
    }
    Err(column_error())
}

/// Reads column `i` as a boolean.
pub fn column_bool(row: &Vec<SqlValue>, i: usize) -> (res: Result<bool, AppError>)
    ensures
        match res {
            Ok(b) => bool_at(row@, i as int) == Some(b),
            Err(e) => bool_at(row@, i as int) is None && e is Database,
        },
{
    let n = column_int(row, i)?;
    Ok(n != 0)
}

/// Whether the parameter binds the text `s`.
pub open spec fn binds_text(p: SqlParam, s: Seq<char>) -> bool {
    p matches SqlParam::Text(t) && t@ == s
}

/// Whether the parameter binds the optional text `o` (`None` as `NULL`).
pub open spec fn binds_opt_text(p: SqlParam, o: Option<Seq<char>>) -> bool {
    match o {
        Some(s) => binds_text(p, s),
        None => p is Null,
    }
}

/// Whether the parameter binds the integer `n`.
pub open spec fn binds_int(p: SqlParam, n: i64) -> bool {
    p == SqlParam::Integer(n)
}

/// Whether the parameter binds the optional integer `o` (`None` as `NULL`).
pub open spec fn binds_opt_int(p: SqlParam, o: Option<i64>) -> bool {
    match o {
        Some(n) => binds_int(p, n),
        None => p is Null,
    }
}

/// Whether the parameter binds the boolean `b`, as the integer 1 or 0.
pub open spec fn binds_bool(p: SqlParam, b: bool) -> bool {
    binds_int(p, if b { 1 } else { 0 })
}

/// Binds a text.
pub fn text_param(s: &String) -> (p: SqlParam)
    ensures
        binds_text(p, s@),
{
    SqlParam::Text(s.clone())
}

/// Binds an optional text: `None` is `NULL`.
pub fn opt_text_param(o: &Option<String>) -> (p: SqlParam)
    ensures
        binds_opt_text(p, opt_view(*o)),
{
    match o {
        Some(s) => SqlParam::Text(s.clone()),
        None => SqlParam::Null,
    }
}

/// Binds an optional integer: `None` is `NULL`.
pub fn opt_int_param(o: Option<i64>) -> (p: SqlParam)
    ensures
        binds_opt_int(p, o),
{
    match o {
        Some(n) => SqlParam::Integer(n),
        None => SqlParam::Null,
    }
}

/// Binds a boolean as the integer 1 or 0, as SQLite stores it.
pub fn bool_param(b: bool) -> (p: SqlParam)
    ensures
        binds_bool(p, b),
{
    if b {
        SqlParam::Integer(1)
    } else {
        SqlParam::Integer(0)
    }
}

/// Reads column 0 of every row as text: the rows of a one-column query.
pub fn text_column(rows: &Vec<Vec<SqlValue>>) -> (res: Result<Vec<String>, AppError>)
    ensures
        match column_texts(rows_view(rows@)) {
            Some(ts) => res matches Ok(v) && v.deep_view() == ts,
            None => res is Err,
        },
        match res {
            Ok(v) => v.len() == rows.len() && forall|i: int|
                0 <= i < rows.len() ==> text_at(#[trigger] rows[i]@, 0) == Some(v[i]@),
            Err(e) => exists|i: int| 0 <= i < rows.len() && text_at(#[trigger] rows[i]@, 0) is None,
        },
{
    let mut out: Vec<String> = Vec::new();
    let mut i: usize = 0;
    while i < rows.len()
        invariant
            i <= rows.len(),
            out.len() == i,
            forall|k: int| 0 <= k < i ==> text_at(#[trigger] rows[k]@, 0) == Some(out[k]@),
        decreases rows.len() - i,
    {
        match column_text(&rows[i], 0) {
            Ok(s) => out.push(s),
            Err(e) => {
                assert(rows_view(rows@)[i as int] == rows[i as int]@);
                return Err(e);
            },
        }
        i = i + 1;
    }
    proof {
        let rv = rows_view(rows@);
        assert forall|k: int| 0 <= k < rv.len() implies #[trigger] text_at(rv[k], 0) is Some by {
            assert(rv[k] == rows[k]@);
        }
        assert(out.deep_view() =~= Seq::new(rv.len(), |k: int| text_at(rv[k], 0)->0)) by {
            assert forall|k: int| 0 <= k < rv.len() implies out.deep_view()[k] == text_at(rv[k], 0)->0 by {
                assert(rv[k] == rows[k]@);
            }
        }
    }
    Ok(out)
}

/// Reads columns 0 and 1 of every row as a pair of texts.
pub fn text_pairs(rows: &Vec<Vec<SqlValue>>) -> (res: Result<Vec<(String, String)>, AppError>)
    ensures
        match res {
            Ok(v) => v.len() == rows.len() && forall|i: int|
                0 <= i < rows.len() ==> text_at(#[trigger] rows[i]@, 0) == Some(v[i].0@)
                    && text_at(rows[i]@, 1) == Some(v[i].1@),
            Err(e) => exists|i: int|
                0 <= i < rows.len() && (text_at(#[trigger] rows[i]@, 0) is None || text_at(
                    rows[i]@,
                    1,
                ) is None),
        },
{
    let mut out: Vec<(String, String)> = Vec::new();
    let mut i: usize = 0;
    while i < rows.len()
        invariant
            i <= rows.len(),
            out.len() == i,
            forall|k: int|
                0 <= k < i ==> text_at(#[trigger] rows[k]@, 0) == Some(out[k].0@) && text_at(
                    rows[k]@,
                    1,
                ) == Some(out[k].1@),
        decreases rows.len() - i,
    {
        let a = match column_text(&rows[i], 0) {
            Ok(s) => s,
            Err(e) => {
                return Err(e);
            },
        };
        let b = match column_text(&rows[i], 1) {
            Ok(s) => s,
            Err(e) => {
                return Err(e);
            },
        };
        out.push((a, b));
        i = i + 1;
    }
    Ok(out)
}

impl Database {
    /// The connection the handle wraps.
    pub closed spec fn connection(&self) -> rusqlite::Connection {
        self.conn
    }

    /// The exchanges with SQLite through this handle, oldest first.
    pub closed spec fn log(&self) -> Seq<DbEvent> {
        self.log@
    }

    /// Wraps an open connection.
    pub fn new(conn: rusqlite::Connection) -> (db: Database)
        ensures
            db.connection() == conn,
            db.log().len() == 0,
    {
        Database { conn, log: Ghost(Seq::empty()) }
    }

    /// Runs one statement; a failure becomes `AppError::Database`.
    pub(crate) fn execute(&mut self, sql: &str, params: &Vec<SqlParam>) -> (res: Result<(), AppError>)
        ensures
            res matches Err(e) ==> e is Database,
            final(self).connection() == old(self).connection(),
            final(self).log() == old(self).log().push(
                DbEvent::Execute { sql: sql@, params: params@, ok: res is Ok },
            ),
    {
        let res = match sqlite_execute(&self.conn, sql, params) {
            Ok(_) => Ok(()),
            Err(e) => Err(db_error(e)),
        };
        proof {
            self.log@ = self.log@.push(DbEvent::Execute { sql: sql@, params: params@, ok: res is Ok });
        }
        res
    }

    /// Runs one query; a failure becomes `AppError::Database`.
    pub(crate) fn query(&mut self, sql: &str, params: &Vec<SqlParam>) -> (res: Result<
        Vec<Vec<SqlValue>>,
        AppError,
    >)
        ensures
            res matches Err(e) ==> e is Database,
            final(self).connection() == old(self).connection(),
            final(self).log() == old(self).log().push(
                DbEvent::Query {
                    sql: sql@,
                    params: params@,
                    rows: match res {
                        Ok(rows) => Some(rows_view(rows@)),
                        Err(_) => None,
                    },
                },
            ),
            res matches Ok(rows) ==> forall|i: int, j: int|
                0 <= i < rows.len() && 0 <= j < rows.len() ==> #[trigger] rows[i].len()
                    == #[trigger] rows[j].len(),
    {
        let res = match sqlite_query(&self.conn, sql, params) {
            Ok(rows) => Ok(rows),
            Err(e) => Err(db_error(e)),
        };
        proof {
            let rows = match &res {
                Ok(rows) => Some(rows_view(rows@)),
                Err(_) => None,
            };
            self.log@ = self.log@.push(DbEvent::Query { sql: sql@, params: params@, rows: rows });
        }
        res
    }

    /// Creates the tables that this library reads and writes, where they do
    /// not exist yet.
    pub fn init_schema(&mut self) -> (res: Result<(), AppError>)
        ensures
            res matches Err(e) ==> e is Database,
            final(self).connection() == old(self).connection(),
            final(self).log() == old(self).log().push(DbEvent::Script { sql: SCHEMA@, ok: res is Ok }),
    {
        let res = match sqlite_execute_batch(&self.conn, SCHEMA) {
            Ok(()) => Ok(()),
            Err(e) => Err(db_error(e)),
        };
        proof {
            self.log@ = self.log@.push(DbEvent::Script { sql: SCHEMA@, ok: res is Ok });
        }
        res
    }

    /// A parameter binding the text `s`.
    pub fn str_param(s: &str) -> (p: SqlParam)
        ensures
            binds_text(p, s@),
    {
        SqlParam::Text(String::from_str(s))
    }

    /// The parameters binding the text `a`.
    pub fn text_params1(a: &str) -> (p: Vec<SqlParam>)
        ensures
            binds_texts(p@, seq![a@]),
    {
        let p = vec![Self::str_param(a)];
        assert(binds_texts(p@, seq![a@]));
        p
    }

    /// The parameters binding the texts `a` and `b`, in order.
    pub fn text_params2(a: &str, b: &str) -> (p: Vec<SqlParam>)
        ensures
            binds_texts(p@, seq![a@, b@]),
    {
        let p = vec![Self::str_param(a), Self::str_param(b)];
        assert(binds_texts(p@, seq![a@, b@]));
        p
    }
}

/// The tables of skill groups, their members, workspaces, the installed
/// skills, the groups bound to a workspace and the groups active in a
/// workspace.
pub const SCHEMA: &'static str = "PRAGMA foreign_keys = ON;
CREATE TABLE IF NOT EXISTS skill_groups (
    id TEXT PRIMARY KEY,
    name TEXT NOT NULL,
    description TEXT,
    icon TEXT,
    is_active BOOLEAN NOT NULL DEFAULT 0,
    sort_index INTEGER,
    created_at INTEGER NOT NULL DEFAULT 0,
    updated_at INTEGER NOT NULL DEFAULT 0,
    enabled_claude BOOLEAN NOT NULL DEFAULT 0,
    enabled_codex BOOLEAN NOT NULL DEFAULT 0,
    enabled_gemini BOOLEAN NOT NULL DEFAULT 0,
    enabled_opencode BOOLEAN NOT NULL DEFAULT 0,
    enabled_hermes BOOLEAN NOT NULL DEFAULT 0
);
CREATE TABLE IF NOT EXISTS skill_group_members (
    group_id TEXT NOT NULL,
    skill_id TEXT NOT NULL,
    PRIMARY KEY (group_id, skill_id),
    FOREIGN KEY (group_id) REFERENCES skill_groups(id) ON DELETE CASCADE
);
CREATE TABLE IF NOT EXISTS workspaces (
    id TEXT PRIMARY KEY,
    name TEXT NOT NULL,
    path TEXT NOT NULL,
    created_at INTEGER NOT NULL DEFAULT 0,
    updated_at INTEGER NOT NULL DEFAULT 0,
    is_user_level INTEGER NOT NULL DEFAULT 0
);
CREATE TABLE IF NOT EXISTS workspace_groups (
    workspace_id TEXT NOT NULL,
    group_id TEXT NOT NULL,
    PRIMARY KEY (workspace_id, group_id),
    FOREIGN KEY (workspace_id) REFERENCES workspaces(id) ON DELETE CASCADE,
    FOREIGN KEY (group_id) REFERENCES skill_groups(id) ON DELETE CASCADE
);
CREATE TABLE IF NOT EXISTS installed_skills (
    id TEXT PRIMARY KEY,
    name TEXT NOT NULL,
    directory TEXT NOT NULL
);
CREATE TABLE IF NOT EXISTS workspace_group_active (
    workspace_id TEXT NOT NULL,
    group_id TEXT NOT NULL,
    PRIMARY KEY (workspace_id, group_id),
    FOREIGN KEY (workspace_id) REFERENCES workspaces(id) ON DELETE CASCADE,
    FOREIGN KEY (group_id) REFERENCES skill_groups(id) ON DELETE CASCADE
);";

} // verus!
