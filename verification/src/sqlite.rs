//! Read access to SQLite through `rusqlite`.
//!
//! Each reader runs one prepared statement with text parameters and hands the
//! rows back as plain values; the `Db` methods record each statement before
//! running it. What a query returns depends on the database on
//! disk, so none of these readers promises anything about the rows: the
//! verified callers hold for every outcome.
use vstd::prelude::*;

verus! {

#[verifier::external_type_specification]
#[verifier::external_body]
pub struct ExConnection(rusqlite::Connection);

#[verifier::external_type_specification]
#[verifier::external_body]
pub struct ExSqliteError(rusqlite::Error);

/// Runs `Connection::prepare` and `Statement::query_map` with the given text
/// parameters and reads the first column of each row as optional text
/// (`Row::get::<Option<String>>`). The rows depend on the database, so
/// nothing is stated of them.
#[verifier::external_body]
fn select_text(conn: &rusqlite::Connection, sql: &str, args: &[&str]) -> (r: Result<
    Vec<Option<String>>,
    rusqlite::Error,
>) {
    let mut stmt = conn.prepare(sql)?;
    let rows = stmt.query_map(rusqlite::params_from_iter(args.iter()), |row| row.get(0))?;
    rows.collect()
}

/// As `select_text`, reading the first two columns of each row.
#[verifier::external_body]
fn select_text2(conn: &rusqlite::Connection, sql: &str, args: &[&str]) -> (r: Result<
    Vec<(Option<String>, Option<String>)>,
    rusqlite::Error,
>) {
    let mut stmt = conn.prepare(sql)?;
    let rows = stmt.query_map(
        rusqlite::params_from_iter(args.iter()),
        |row| Ok((row.get(0)?, row.get(1)?)),
    )?;
    rows.collect()
}

/// As `select_text`, reading the first three columns of each row.
#[verifier::external_body]
fn select_text3(conn: &rusqlite::Connection, sql: &str, args: &[&str]) -> (r: Result<
    Vec<(Option<String>, Option<String>, Option<String>)>,
    rusqlite::Error,
>) {
    let mut stmt = conn.prepare(sql)?;
    let rows = stmt.query_map(
        rusqlite::params_from_iter(args.iter()),
        |row| Ok((row.get(0)?, row.get(1)?, row.get(2)?)),
    )?;
    rows.collect()
}

/// As `select_text`, reading the first four columns of each row.
#[verifier::external_body]
fn select_text4(conn: &rusqlite::Connection, sql: &str, args: &[&str]) -> (r: Result<
    Vec<(Option<String>, Option<String>, Option<String>, Option<String>)>,
    rusqlite::Error,
>) {
    let mut stmt = conn.prepare(sql)?;
    let rows = stmt.query_map(
        rusqlite::params_from_iter(args.iter()),
        |row| Ok((row.get(0)?, row.get(1)?, row.get(2)?, row.get(3)?)),
    )?;
    rows.collect()
}

/// As `select_text`, reading the first five columns of each row.
#[verifier::external_body]
fn select_text5(conn: &rusqlite::Connection, sql: &str, args: &[&str]) -> (r: Result<
    Vec<(Option<String>, Option<String>, Option<String>, Option<String>, Option<String>)>,
    rusqlite::Error,
>) {
    let mut stmt = conn.prepare(sql)?;
    let rows = stmt.query_map(
        rusqlite::params_from_iter(args.iter()),
        |row| Ok((row.get(0)?, row.get(1)?, row.get(2)?, row.get(3)?, row.get(4)?)),
    )?;
    rows.collect()
}

/// Runs a statement with the given text parameters and reads the first
/// column of each row as text (`Row::get::<String>`); a row that cannot be
/// read that way (NULL, a number, a failed step) comes back as `None`
/// instead of failing the whole query. Nothing is stated of the rows.
#[verifier::external_body]
fn select_text_lenient(conn: &rusqlite::Connection, sql: &str, args: &[&str]) -> (r: Result<
    Vec<Option<String>>,
    rusqlite::Error,
>) {
    let mut stmt = conn.prepare(sql)?;
    let rows = stmt.query_map(
        rusqlite::params_from_iter(args.iter()),
        |row| row.get::<_, String>(0),
    )?;
    Ok(rows.map(|row| row.ok()).collect())
}

/// As `select_text_lenient`, reading a text column and an optional text
/// column (`Row::get::<String>`, `Row::get::<Option<String>>`).
#[verifier::external_body]
fn select_text_opt_lenient(conn: &rusqlite::Connection, sql: &str) -> (r: Result<
    Vec<Option<(String, Option<String>)>>,
    rusqlite::Error,
>) {
    let mut stmt = conn.prepare(sql)?;
    let rows = stmt.query_map([], |row| Ok((row.get(0)?, row.get(1)?)))?;
    Ok(rows.map(|row| row.ok()).collect())
}

/// As `select_text_lenient`, reading two text columns.
#[verifier::external_body]
fn select_text2_lenient(conn: &rusqlite::Connection, sql: &str) -> (r: Result<
    Vec<Option<(String, String)>>,
    rusqlite::Error,
>) {
    let mut stmt = conn.prepare(sql)?;
    let rows = stmt.query_map([], |row| Ok((row.get(0)?, row.get(1)?)))?;
    Ok(rows.map(|row| row.ok()).collect())
}

/// Runs `Connection::query_row` and tells whether the statement yields a
/// row; any error counts as no row. Depends on the database, so nothing is
/// stated.
#[verifier::external_body]
fn select_exists(conn: &rusqlite::Connection, sql: &str, args: &[&str]) -> (r: bool) {
    conn.query_row(sql, rusqlite::params_from_iter(args.iter()), |_| Ok(true)).unwrap_or(false)
}

/// As `select_text`, reading alias rows: `tag_code` and `lemma` as optional
/// text and `is_canonical` as an integer, `None` when it cannot be read as
/// one (`Row::get::<i64>(..).ok()`). Nothing is stated of the rows.
#[verifier::external_body]
fn select_alias_rows(conn: &rusqlite::Connection, sql: &str, args: &[&str]) -> (r: Result<
    Vec<(Option<String>, Option<String>, Option<i64>)>,
    rusqlite::Error,
>) {
    let mut stmt = conn.prepare(sql)?;
    let rows = stmt.query_map(
        rusqlite::params_from_iter(args.iter()),
        |row| Ok((row.get(0)?, row.get(1)?, row.get::<_, i64>(2).ok())),
    )?;
    rows.collect()
}

/// As `select_alias_rows`, with a fourth column `locale` read as text,
/// `None` when it cannot be read as text (`Row::get::<String>(..).ok()`).
#[verifier::external_body]
fn select_legacy_alias_rows(conn: &rusqlite::Connection, sql: &str, args: &[&str]) -> (r:
    Result<Vec<(Option<String>, Option<String>, Option<i64>, Option<String>)>, rusqlite::Error>) {
    let mut stmt = conn.prepare(sql)?;
    let rows = stmt.query_map(
        rusqlite::params_from_iter(args.iter()),
        |row| Ok((row.get(0)?, row.get(1)?, row.get::<_, i64>(2).ok(), row.get::<_, String>(3).ok())),
    )?;
    rows.collect()
}

/// As `select_text`, reading tag rows: `code` and `name` as optional text,
/// `parent_codes` as text or `None` when it cannot be read as text
/// (`Row::get::<String>(2).ok()`). Nothing is stated of the rows.
#[verifier::external_body]
fn select_tag_rows(conn: &rusqlite::Connection, sql: &str) -> (r: Result<
    Vec<(Option<String>, Option<String>, Option<String>)>,
    rusqlite::Error,
>) {
    let mut stmt = conn.prepare(sql)?;
    let rows = stmt.query_map([], |row| Ok((row.get(0)?, row.get(1)?, row.get::<_, String>(2).ok())))?;
    rows.collect()
}

/// A statement as recorded: its text and its parameters.
pub open spec fn query_entry(sql: Seq<char>, args: Seq<&str>) -> (Seq<char>, Seq<Seq<char>>) {
    (sql, args.map_values(|a: &str| a@))
}

/// A read-only connection to the lexical database, with the record of the
/// statements run on it, in order. Every read goes through its methods, so
/// the record says which queries a function made.
pub struct Db {
    conn: rusqlite::Connection,
    queries: Ghost<Seq<(Seq<char>, Seq<Seq<char>>)>>,
}

/// `b` continues `a`: `a` is a prefix of `b`.
pub open spec fn log_extends(a: Seq<(Seq<char>, Seq<Seq<char>>)>, b: Seq<(Seq<char>, Seq<Seq<char>>)>) -> bool {
    a.len() <= b.len() && b.subrange(0, a.len() as int) == a
}

impl Db {
    /// The statements run so far.
    pub closed spec fn log(&self) -> Seq<(Seq<char>, Seq<Seq<char>>)> {
        self.queries@
    }

    /// A connection with nothing run on it yet.
    pub fn new(conn: rusqlite::Connection) -> (r: Db)
        ensures
            r.log() == Seq::<(Seq<char>, Seq<Seq<char>>)>::empty(),
    {
        Db { conn, queries: Ghost(Seq::empty()) }
    }

    /// The underlying connection.
    pub fn connection(&self) -> &rusqlite::Connection {
        &self.conn
    }

    /// The underlying connection, given back.
    pub fn into_connection(self) -> rusqlite::Connection {
        self.conn
    }

    fn record(&mut self, sql: &str, args: &[&str])
        ensures
            final(self).log() == old(self).log().push(query_entry(sql@, args@)),
            log_extends(old(self).log(), final(self).log()),
    {
        proof {
            lemma_log_extends_push(self.queries@, query_entry(sql@, args@));
            self.queries@ = self.queries@.push(query_entry(sql@, args@));
        }
    }

    /// Records the statement, then runs it (see the reader `select_text`).
    pub fn select_text(&mut self, sql: &str, args: &[&str]) -> (r: Result< Vec<Option<String>>, rusqlite::Error, >)
        ensures
            final(self).log() == old(self).log().push(query_entry(sql@, args@)),
            log_extends(old(self).log(), final(self).log()),
    {
        self.record(sql, args);
        select_text(&self.conn, sql, args)
    }

    /// Records the statement, then runs it (see the reader `select_text2`).
    pub fn select_text2(&mut self, sql: &str, args: &[&str]) -> (r: Result< Vec<(Option<String>, Option<String>)>, rusqlite::Error, >)
        ensures
            final(self).log() == old(self).log().push(query_entry(sql@, args@)),
            log_extends(old(self).log(), final(self).log()),
    {
        self.record(sql, args);
        select_text2(&self.conn, sql, args)
    }

    /// Records the statement, then runs it (see the reader `select_text3`).
    pub fn select_text3(&mut self, sql: &str, args: &[&str]) -> (r: Result< Vec<(Option<String>, Option<String>, Option<String>)>, rusqlite::Error, >)
        ensures
            final(self).log() == old(self).log().push(query_entry(sql@, args@)),
            log_extends(old(self).log(), final(self).log()),
    {
        self.record(sql, args);
        select_text3(&self.conn, sql, args)
    }

    /// Records the statement, then runs it (see the reader `select_text4`).
    pub fn select_text4(&mut self, sql: &str, args: &[&str]) -> (r: Result< Vec<(Option<String>, Option<String>, Option<String>, Option<String>)>, rusqlite::Error, >)
        ensures
            final(self).log() == old(self).log().push(query_entry(sql@, args@)),
            log_extends(old(self).log(), final(self).log()),
    {
        self.record(sql, args);
        select_text4(&self.conn, sql, args)
    }

    /// Records the statement, then runs it (see the reader `select_text5`).
    pub fn select_text5(&mut self, sql: &str, args: &[&str]) -> (r: Result< Vec<(Option<String>, Option<String>, Option<String>, Option<String>, Option<String>)>, rusqlite::Error, >)
        ensures
            final(self).log() == old(self).log().push(query_entry(sql@, args@)),
            log_extends(old(self).log(), final(self).log()),
    {
        self.record(sql, args);
        select_text5(&self.conn, sql, args)
    }

    /// Records the statement, then runs it (see the reader `select_text_lenient`).
    pub fn select_text_lenient(&mut self, sql: &str, args: &[&str]) -> (r: Result< Vec<Option<String>>, rusqlite::Error, >)
        ensures
            final(self).log() == old(self).log().push(query_entry(sql@, args@)),
            log_extends(old(self).log(), final(self).log()),
    {
        self.record(sql, args);
        select_text_lenient(&self.conn, sql, args)
    }

    /// Records the statement, then runs it (see the reader `select_text_opt_lenient`).
    pub fn select_text_opt_lenient(&mut self, sql: &str) -> (r: Result< Vec<Option<(String, Option<String>)>>, rusqlite::Error, >)
        ensures
            final(self).log() == old(self).log().push(query_entry(sql@, Seq::empty())),
            log_extends(old(self).log(), final(self).log()),
    {
        let none: Vec<&str> = Vec::new();
        self.record(sql, none.as_slice());
        assert(none@ =~= Seq::<&str>::empty());
        select_text_opt_lenient(&self.conn, sql)
    }

    /// Records the statement, then runs it (see the reader `select_text2_lenient`).
    pub fn select_text2_lenient(&mut self, sql: &str) -> (r: Result< Vec<Option<(String, String)>>, rusqlite::Error, >)
        ensures
            final(self).log() == old(self).log().push(query_entry(sql@, Seq::empty())),
            log_extends(old(self).log(), final(self).log()),
    {
        let none: Vec<&str> = Vec::new();
        self.record(sql, none.as_slice());
        assert(none@ =~= Seq::<&str>::empty());
        select_text2_lenient(&self.conn, sql)
    }

    /// Records the statement, then runs it (see the reader `select_exists`).
    pub fn select_exists(&mut self, sql: &str, args: &[&str]) -> (r: bool)
        ensures
            final(self).log() == old(self).log().push(query_entry(sql@, args@)),
            log_extends(old(self).log(), final(self).log()),
    {
        self.record(sql, args);
        select_exists(&self.conn, sql, args)
    }

    /// Records the statement, then runs it (see the reader `select_alias_rows`).
    pub fn select_alias_rows(&mut self, sql: &str, args: &[&str]) -> (r: Result< Vec<(Option<String>, Option<String>, Option<i64>)>, rusqlite::Error, >)
        ensures
            final(self).log() == old(self).log().push(query_entry(sql@, args@)),
            log_extends(old(self).log(), final(self).log()),
    {
        self.record(sql, args);
        select_alias_rows(&self.conn, sql, args)
    }

    /// Records the statement, then runs it (see the reader `select_legacy_alias_rows`).
    pub fn select_legacy_alias_rows(&mut self, sql: &str, args: &[&str]) -> (r: Result<Vec<(Option<String>, Option<String>, Option<i64>, Option<String>)>, rusqlite::Error>)
        ensures
            final(self).log() == old(self).log().push(query_entry(sql@, args@)),
            log_extends(old(self).log(), final(self).log()),
    {
        self.record(sql, args);
        select_legacy_alias_rows(&self.conn, sql, args)
    }

    /// Records the statement, then runs it (see the reader `select_tag_rows`).
    pub fn select_tag_rows(&mut self, sql: &str) -> (r: Result< Vec<(Option<String>, Option<String>, Option<String>)>, rusqlite::Error, >)
        ensures
            final(self).log() == old(self).log().push(query_entry(sql@, Seq::empty())),
            log_extends(old(self).log(), final(self).log()),
    {
        let none: Vec<&str> = Vec::new();
        self.record(sql, none.as_slice());
        assert(none@ =~= Seq::<&str>::empty());
        select_tag_rows(&self.conn, sql)
    }
}

/// A record continues itself.
pub proof fn lemma_log_extends_refl(a: Seq<(Seq<char>, Seq<Seq<char>>)>)
    ensures
        log_extends(a, a),
{
    assert(a.subrange(0, a.len() as int) =~= a);
}

/// One more statement continues a record.
pub proof fn lemma_log_extends_push(a: Seq<(Seq<char>, Seq<Seq<char>>)>, e: (Seq<char>, Seq<Seq<char>>))
    ensures
        log_extends(a, a.push(e)),
{
    assert(a.push(e).subrange(0, a.len() as int) =~= a);
}

/// A record that continues `a` still does after one more statement.
pub proof fn lemma_log_extends_more(
    a: Seq<(Seq<char>, Seq<Seq<char>>)>,
    b: Seq<(Seq<char>, Seq<Seq<char>>)>,
    e: (Seq<char>, Seq<Seq<char>>),
)
    requires
        log_extends(a, b),
    ensures
        log_extends(a, b.push(e)),
{
    assert(b.push(e).subrange(0, a.len() as int) =~= b.subrange(0, a.len() as int));
}

/// A record continues into itself followed by more statements.
pub proof fn lemma_log_extends_prefix(a: Seq<(Seq<char>, Seq<Seq<char>>)>, more: Seq<(Seq<char>, Seq<Seq<char>>)>)
    ensures
        log_extends(a, a + more),
{
    assert((a + more).subrange(0, a.len() as int) =~= a);
}

/// The statements run after a record are its continuation past it; the
/// first of them comes right after the record.
pub proof fn lemma_log_suffix(a: Seq<(Seq<char>, Seq<Seq<char>>)>, q: Seq<(Seq<char>, Seq<Seq<char>>)>)
    ensures
        (a + q).skip(a.len() as int) == q,
        log_extends(a, a + q),
        q.len() > 0 ==> log_extends(a.push(q[0]), a + q),
{
    assert((a + q).skip(a.len() as int) =~= q);
    assert((a + q).subrange(0, a.len() as int) =~= a);
    if q.len() > 0 {
        assert((a + q).subrange(0, a.len() + 1 as int) =~= a.push(q[0]));
    }
}

/// A statement with one parameter is recorded with that parameter's text.
pub proof fn lemma_entry_one(sql: Seq<char>, a: &str)
    ensures
        query_entry(sql, seq![a]) == (sql, seq![a@]),
{
    assert(seq![a].map_values(|x: &str| x@) =~= seq![a@]);
}

/// A statement with two parameters is recorded with their texts, in order.
pub proof fn lemma_entry_two(sql: Seq<char>, a: &str, b: &str)
    ensures
        query_entry(sql, seq![a, b]) == (sql, seq![a@, b@]),
{
    assert(seq![a, b].map_values(|x: &str| x@) =~= seq![a@, b@]);
}

/// A statement without parameters is recorded with none.
pub proof fn lemma_entry_none(sql: Seq<char>)
    ensures
        query_entry(sql, Seq::empty()) == (sql, Seq::<Seq<char>>::empty()),
{
    assert(Seq::<&str>::empty().map_values(|x: &str| x@) =~= Seq::<Seq<char>>::empty());
}

/// Continuing a continuation continues the record.
pub proof fn lemma_log_extends_trans(
    a: Seq<(Seq<char>, Seq<Seq<char>>)>,
    b: Seq<(Seq<char>, Seq<Seq<char>>)>,
    c: Seq<(Seq<char>, Seq<Seq<char>>)>,
)
    requires
        log_extends(a, b),
        log_extends(b, c),
    ensures
        log_extends(a, c),
{
    assert(c.subrange(0, a.len() as int) =~= b.subrange(0, a.len() as int));
}

} // verus!
