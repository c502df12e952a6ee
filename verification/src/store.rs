//! The SQLite database that holds the word list, the definitions and the log
//! of recent definitions. Every statement goes through `Database`, whose
//! connection records each statement handed to SQLite, and which records the
//! answer each statement got.

use vstd::prelude::*;
use vstd::string::StringExecFns;
use crate::link::Link;
use crate::link::link_execute;
use crate::link::link_open;
use crate::link::link_prepare;
use crate::link::link_record;
use crate::link::query_close;
use crate::link::sqlite_kind;
use crate::link::sqlite_next;
use crate::link::sqlite_read_integer;
use crate::link::sqlite_read_text;
use crate::link::count_rows;
use crate::link::integers_read;
use crate::link::lemma_events_push;
use crate::link::stepped_to_end;
use crate::link::texts_read;
use crate::link::Event;
use crate::link::Query;
use crate::link::link_set_busy_timeout;

verus! {

#[verifier::external_type_specification]
#[verifier::external_body]
pub struct ExConnection(sqlite3::Connection);

#[verifier::external_type_specification]
#[verifier::external_body]
pub struct ExStatement<'l>(sqlite3::Statement<'l>);

#[verifier::external_type_specification]
#[verifier::external_body]
pub struct ExSqliteError(sqlite3::Error);

/// Why a request to the database did not give the expected answer.
#[derive(Debug)]
pub enum DbError {
    /// SQLite reported an error, with its code and message where it gave them,
    /// and the error's debug form.
    Sqlite { code: Option<isize>, message: Option<String>, debug: String },
    /// A counting statement produced no row.
    NoRow,
    /// A column held a value of another type than the schema gives it.
    UnexpectedType,
    /// A stored definition has as many parts as its word has letters, but
    /// misses one of the positions.
    IncompleteDefinition,
    /// A definition was checked against a byte offset of the word at which no
    /// character starts.
    NotCharBoundary,
}

/// The type SQLite reports for a column of the current row.
#[derive(Debug, Clone, Copy)]
pub enum ColumnType {
    Binary,
    Float,
    Integer,
    Text,
    Null,
}

/// Moves the code and the message out of an `sqlite3::Error`. The type is
/// opaque here, so nothing is stated of the parts.
#[verifier::external_body]
fn sqlite_error_parts(e: sqlite3::Error) -> (r: (Option<isize>, Option<String>)) {
    (e.code, e.message)
}

/// Formats an `sqlite3::Error` with its derived `Debug` impl. The type is
/// opaque here, so nothing is stated of the text.
#[verifier::external_body]
fn sqlite_error_debug(e: &sqlite3::Error) -> (r: String) {
    format!("{:?}", e)
}

impl DbError {
    /// The error that SQLite reported.
    pub fn from_sqlite(e: sqlite3::Error) -> (r: DbError)
        ensures
            r is Sqlite,
    {
        let debug = sqlite_error_debug(&e);
        let (code, message) = sqlite_error_parts(e);
        DbError::Sqlite { code, message, debug }
    }
}

/// The message SQLite holds for the connection when the last call on it
/// succeeded.
pub open spec fn no_error_message() -> Seq<char> {
    "not an error"@
}

/// The text an error page gives for an error: its debug form, then the
/// connection's message between parentheses.
pub open spec fn error_text(e: DbError) -> Seq<char> {
    match e {
        DbError::Sqlite { code, message, debug } => debug@ + " ("@ + match message {
            None => Seq::<char>::empty(),
            Some(m) => m@,
        } + ")"@,
        DbError::NoRow => "NoRow ("@ + no_error_message() + ")"@,
        DbError::UnexpectedType => "UnexpectedType ("@ + no_error_message() + ")"@,
        DbError::IncompleteDefinition => "IncompleteDefinition ("@ + no_error_message() + ")"@,
        DbError::NotCharBoundary => "NotCharBoundary ("@ + no_error_message() + ")"@,
    }
}

impl DbError {
    /// The text of the error for the error page.
    pub fn describe(&self) -> (r: String)
        ensures
            r@ == error_text(*self),
    {
        let mut r = String::new();
        match self {
            DbError::Sqlite { code: _, message, debug } => {
                r.append(debug.as_str());
                r.append(" (");
                match message {
                    None => {},
                    Some(m) => r.append(m.as_str()),
                }
                r.append(")");
            },
            DbError::NoRow => {
                r.append("NoRow (");
                r.append("not an error");
                r.append(")");
            },
            DbError::UnexpectedType => {
                r.append("UnexpectedType (");
                r.append("not an error");
                r.append(")");
            },
            DbError::IncompleteDefinition => {
                r.append("IncompleteDefinition (");
                r.append("not an error");
                r.append(")");
            },
            DbError::NotCharBoundary => {
                r.append("NotCharBoundary (");
                r.append("not an error");
                r.append(")");
            },
        }
        r
    }
}

/// What the database answered to a statement.
pub enum Answer {
    /// The statement failed, or its rows were not of the expected form,
    /// with the error returned for it.
    Failed(DbError),
    /// The statement ran.
    Done,
    /// Whether the query produced a row.
    Found(bool),
    /// The integer of the first row.
    Integer(i64),
    /// The texts of a column, row by row.
    Texts(Seq<Seq<char>>),
    /// The (integer, text) pairs of two columns, row by row.
    Rows(Seq<(i64, Seq<char>)>),
}

/// The view of a list of strings.
pub open spec fn texts_view(v: Seq<String>) -> Seq<Seq<char>> {
    v.map_values(|s: String| s@)
}

/// The view of (integer, text) rows.
pub open spec fn int_text_rows_view(v: Seq<(i64, String)>) -> Seq<(i64, Seq<char>)> {
    v.map_values(|r: (i64, String)| (r.0, r.1@))
}

fn run_execute(link: &mut Link, sql: &str) -> (r: Result<(), DbError>)
    ensures
        final(link).sent() == old(link).sent().push(sql@),
        final(link).path() == old(link).path(),
        final(link).busy_timeout() == old(link).busy_timeout(),
        final(link).traces() == old(link).traces(),
        r matches Err(e) ==> e is Sqlite,
{
    match link_execute(link, sql) {
        Ok(()) => Ok(()),
        Err(e) => Err(DbError::from_sqlite(e)),
    }
}

fn run_has_row(link: &mut Link, sql: &str) -> (r: Result<bool, DbError>)
    ensures
        final(link).sent() == old(link).sent().push(sql@),
        final(link).path() == old(link).path(),
        final(link).busy_timeout() == old(link).busy_timeout(),
        r matches Ok(b) ==> final(link).traces() == old(link).traces().push(
            (sql@, seq![if b { Event::Row } else { Event::Done }]),
        ),
        r matches Err(e) ==> e is Sqlite,
{
    let mut q = match link_prepare(link, sql) {
        Ok(q) => q,
        Err(e) => return Err(DbError::from_sqlite(e)),
    };
    match sqlite_next(&mut q) {
        Ok(b) => {
            let t = query_close(q);
            link_record(link, t);
            Ok(b)
        },
        Err(e) => Err(DbError::from_sqlite(e)),
    }
}

fn run_first_integer(link: &mut Link, sql: &str) -> (r: Result<i64, DbError>)
    ensures
        final(link).sent() == old(link).sent().push(sql@),
        final(link).path() == old(link).path(),
        final(link).busy_timeout() == old(link).busy_timeout(),
        r matches Ok(v) ==> final(link).traces() == old(link).traces().push(
            (sql@, seq![Event::Row, Event::Integer(0, v)]),
        ),
        r matches Err(e) ==> (e is NoRow ==> final(link).traces() == old(link).traces().push(
            (sql@, seq![Event::Done]),
        )),
        r matches Err(e) ==> e is Sqlite || e is NoRow,
{
    let mut q = match link_prepare(link, sql) {
        Ok(q) => q,
        Err(e) => return Err(DbError::from_sqlite(e)),
    };
    match sqlite_next(&mut q) {
        Ok(true) => {},
        Ok(false) => {
            let t = query_close(q);
            link_record(link, t);
            return Err(DbError::NoRow);
        },
        Err(e) => return Err(DbError::from_sqlite(e)),
    }
    match sqlite_read_integer(&mut q, 0) {
        Ok(v) => {
            assert(q.events() =~= seq![Event::Row, Event::Integer(0, v)]);
            let t = query_close(q);
            link_record(link, t);
            Ok(v)
        },
        Err(e) => Err(DbError::from_sqlite(e)),
    }
}

/// On success, the texts of column `col` of every row the query yielded, in
/// order: it was stepped until SQLite said it was done (short of that only
/// where `usize::MAX` texts were read, which no vector can hold).
#[verifier::loop_isolation(false)]
fn run_text_column(link: &mut Link, sql: &str, col: usize) -> (r: Result<Vec<String>, DbError>)
    ensures
        final(link).sent() == old(link).sent().push(sql@),
        final(link).path() == old(link).path(),
        final(link).busy_timeout() == old(link).busy_timeout(),
        r matches Ok(v) ==> {
            let ev = final(link).traces().last().1;
            &&& final(link).traces() == old(link).traces().push((sql@, ev))
            &&& stepped_to_end(ev) || v.len() == usize::MAX
            &&& count_rows(ev) == v.len()
            &&& texts_read(ev, col) == texts_view(v@)
        },
        r matches Err(e) ==> e is Sqlite || e is UnexpectedType,
{
    let mut q = match link_prepare(link, sql) {
        Ok(q) => q,
        Err(e) => return Err(DbError::from_sqlite(e)),
    };
    let mut out: Vec<String> = Vec::new();
    let mut done = false;
    let mut failure: Option<DbError> = None;
    // a vector cannot hold `usize::MAX` strings, so the bound is never reached
    let mut seen: usize = 0;
    while seen < usize::MAX && !done && failure.is_none()
        invariant
            q.sql() == sql@,
            out.len() <= seen,
            !done && failure is None ==> out.len() == seen,
            failure is None ==> count_rows(q.events()) == out.len(),
            failure is None ==> texts_read(q.events(), col) == texts_view(out@),
            done ==> stepped_to_end(q.events()),
            !done ==> forall|i: int| 0 <= i < q.events().len() ==> !(#[trigger] q.events()[i] is Done),
            failure matches Some(e) ==> e is Sqlite || e is UnexpectedType,
        decreases usize::MAX - seen,
    {
        let ghost e0 = q.events();
        let next = sqlite_next(&mut q);
        proof {
            lemma_events_push(e0, q.events().last(), col);
        }
        match next {
            Ok(true) => {
                let ghost e1 = q.events();
                let kind = sqlite_kind(&mut q, col);
                proof {
                    lemma_events_push(e1, q.events().last(), col);
                }
                match kind {
                    ColumnType::Text => {
                        let ghost e2 = q.events();
                        let read = sqlite_read_text(&mut q, col);
                        proof {
                            lemma_events_push(e2, q.events().last(), col);
                        }
                        match read {
                            Ok(t) => {
                                out.push(t);
                                assert(texts_view(out@) =~= texts_view(out@.drop_last()).push(out@.last()@));
                            },
                            Err(e) => failure = Some(DbError::from_sqlite(e)),
                        }
                    },
                    _ => failure = Some(DbError::UnexpectedType),
                }
            },
            Ok(false) => {
                done = true;
                assert(stepped_to_end(q.events())) by {
                    assert forall|i: int| 0 <= i < q.events().len() - 1 implies !(#[trigger] q.events()[i] is Done) by {
                        assert(q.events()[i] == e0[i]);
                    }
                }
            },
            Err(e) => failure = Some(DbError::from_sqlite(e)),
        }
        if failure.is_none() && !done {
            seen = out.len();
        } else {
            seen = usize::MAX;
        }
    }
    let t = query_close(q);
    link_record(link, t);
    match failure {
        Some(e) => Err(e),
        None => Ok(out),
    }
}

/// On success, for every row the query yielded, in order, the integer of
/// column `icol` and the text of column `tcol`: it was stepped until SQLite
/// said it was done (short of that only where `usize::MAX` rows were read,
/// which no vector can hold).
#[verifier::loop_isolation(false)]
fn run_integer_text_rows(link: &mut Link, sql: &str, icol: usize, tcol: usize) -> (r: Result<Vec<(i64, String)>, DbError>)
    ensures
        final(link).sent() == old(link).sent().push(sql@),
        final(link).path() == old(link).path(),
        final(link).busy_timeout() == old(link).busy_timeout(),
        r matches Ok(v) ==> {
            let ev = final(link).traces().last().1;
            &&& final(link).traces() == old(link).traces().push((sql@, ev))
            &&& stepped_to_end(ev) || v.len() == usize::MAX
            &&& count_rows(ev) == v.len()
            &&& integers_read(ev, icol) == v@.map_values(|row: (i64, String)| row.0)
            &&& texts_read(ev, tcol) == v@.map_values(|row: (i64, String)| row.1@)
        },
        r matches Err(e) ==> e is Sqlite || e is UnexpectedType,
{
    let mut q = match link_prepare(link, sql) {
        Ok(q) => q,
        Err(e) => return Err(DbError::from_sqlite(e)),
    };
    let mut out: Vec<(i64, String)> = Vec::new();
    let mut done = false;
    let mut failure: Option<DbError> = None;
    // a vector cannot hold `usize::MAX` rows, so the bound is never reached
    let mut seen: usize = 0;
    while seen < usize::MAX && !done && failure.is_none()
        invariant
            q.sql() == sql@,
            out.len() <= seen,
            !done && failure is None ==> out.len() == seen,
            failure is None ==> count_rows(q.events()) == out.len(),
            failure is None ==> integers_read(q.events(), icol) == out@.map_values(|row: (i64, String)| row.0),
            failure is None ==> texts_read(q.events(), tcol) == out@.map_values(|row: (i64, String)| row.1@),
            done ==> stepped_to_end(q.events()),
            !done ==> forall|i: int| 0 <= i < q.events().len() ==> !(#[trigger] q.events()[i] is Done),
            failure matches Some(e) ==> e is Sqlite || e is UnexpectedType,
        decreases usize::MAX - seen,
    {
        let ghost e0 = q.events();
        let next = sqlite_next(&mut q);
        proof {
            lemma_events_push(e0, q.events().last(), icol);
            lemma_events_push(e0, q.events().last(), tcol);
        }
        match next {
            Ok(true) => {
                let ghost e1 = q.events();
                let row = read_int_text_row(&mut q, icol, tcol);
                proof {
                    assert forall|i: int| 0 <= i < q.events().len() implies !(#[trigger] q.events()[i] is Done) by {
                        if i < e1.len() {
                            assert(q.events()[i] == q.events().take(e1.len() as int)[i]);
                        }
                    }
                }
                match row {
                    Ok((i, text)) => {
                        let ghost before = out@;
                        out.push((i, text));
                        assert(out@.map_values(|row: (i64, String)| row.0)
                            =~= before.map_values(|row: (i64, String)| row.0).push(i));
                        assert(out@.map_values(|row: (i64, String)| row.1@)
                            =~= before.map_values(|row: (i64, String)| row.1@).push(out@.last().1@));
                    },
                    Err(e) => failure = Some(e),
                }
            },
            Ok(false) => {
                done = true;
                assert(stepped_to_end(q.events())) by {
                    assert forall|i: int| 0 <= i < q.events().len() - 1 implies !(#[trigger] q.events()[i] is Done) by {
                        assert(q.events()[i] == e0[i]);
                    }
                }
            },
            Err(e) => failure = Some(DbError::from_sqlite(e)),
        }
        if failure.is_none() && !done {
            seen = out.len();
        } else {
            seen = usize::MAX;
        }
    }
    let t = query_close(q);
    link_record(link, t);
    match failure {
        Some(e) => Err(e),
        None => Ok(out),
    }
}

/// Reads the text of column `tcol` and the integer of column `icol` of the
/// current row, checking their types first.
fn read_int_text_row(q: &mut Query, icol: usize, tcol: usize) -> (r: Result<(i64, String), DbError>)
    ensures
        final(q).sql() == old(q).sql(),
        count_rows(final(q).events()) == count_rows(old(q).events()),
        final(q).events().len() >= old(q).events().len(),
        final(q).events().take(old(q).events().len() as int) == old(q).events(),
        forall|i: int| old(q).events().len() <= i < final(q).events().len()
            ==> !(#[trigger] final(q).events()[i] is Done),
        r matches Ok((v, t)) ==> integers_read(final(q).events(), icol) == integers_read(old(q).events(), icol).push(v)
            && texts_read(final(q).events(), tcol) == texts_read(old(q).events(), tcol).push(t@),
        r matches Err(e) ==> e is Sqlite || e is UnexpectedType,
{
    let ghost e0 = q.events();
    let kind = sqlite_kind(q, tcol);
    proof {
        lemma_events_push(e0, q.events().last(), icol);
        lemma_events_push(e0, q.events().last(), tcol);
        assert(q.events().take(e0.len() as int) =~= e0);
    }
    match kind {
        ColumnType::Text => {},
        _ => return Err(DbError::UnexpectedType),
    }
    let ghost e1 = q.events();
    let text_read = sqlite_read_text(q, tcol);
    proof {
        lemma_events_push(e1, q.events().last(), icol);
        lemma_events_push(e1, q.events().last(), tcol);
        assert(q.events().take(e0.len() as int) =~= e0);
        assert forall|i: int| e0.len() <= i < q.events().len() implies !(#[trigger] q.events()[i] is Done) by {
            if i < e1.len() {
                assert(q.events()[i] == e1[i]);
            }
        }
    }
    let text = match text_read {
        Ok(t) => t,
        Err(e) => return Err(DbError::from_sqlite(e)),
    };
    let ghost e2 = q.events();
    let kind = sqlite_kind(q, icol);
    proof {
        lemma_events_push(e2, q.events().last(), icol);
        lemma_events_push(e2, q.events().last(), tcol);
        assert(q.events().take(e0.len() as int) =~= e0);
        assert forall|i: int| e0.len() <= i < q.events().len() implies !(#[trigger] q.events()[i] is Done) by {
            if i < e2.len() {
                assert(q.events()[i] == e2[i]);
            }
        }
    }
    match kind {
        ColumnType::Integer => {},
        _ => return Err(DbError::UnexpectedType),
    }
    let ghost e3 = q.events();
    let int_read = sqlite_read_integer(q, icol);
    proof {
        lemma_events_push(e3, q.events().last(), icol);
        lemma_events_push(e3, q.events().last(), tcol);
        assert(q.events().take(e0.len() as int) =~= e0);
        assert forall|i: int| e0.len() <= i < q.events().len() implies !(#[trigger] q.events()[i] is Done) by {
            if i < e3.len() {
                assert(q.events()[i] == e3[i]);
            }
        }
    }
    let i = match int_read {
        Ok(i) => i,
        Err(e) => return Err(DbError::from_sqlite(e)),
    };
    Ok((i, text))
}

/// An open connection to the database: the file it was opened on, the busy
/// timeout last handed to SQLite, and the statements sent through it, each
/// with the answer it got.
pub struct Database {
    link: Link,
    answers: Ghost<Seq<Answer>>,
}

impl Database {
    /// The path of the database file.
    pub closed spec fn path(&self) -> Seq<char> {
        self.link.path()
    }

    /// The busy timeout, in milliseconds, last handed to SQLite.
    pub closed spec fn busy_timeout(&self) -> Option<usize> {
        self.link.busy_timeout()
    }

    /// The statements handed to SQLite through this connection, in order.
    pub closed spec fn sent(&self) -> Seq<Seq<char>> {
        self.link.sent()
    }

    /// For each query that ran through its steps, its statement and what its
    /// steps and reads gave.
    pub closed spec fn traces(&self) -> Seq<(Seq<char>, Seq<Event>)> {
        self.link.traces()
    }

    /// The answers to the statements, in order.
    pub closed spec fn answers(&self) -> Seq<Answer> {
        self.answers@
    }

    /// Opens the database file at `path`, creating it where it is missing.
    pub fn open(path: &str) -> (r: Result<Database, DbError>)
        ensures
            r matches Ok(db) ==> db.traces() == Seq::<(Seq<char>, Seq<Event>)>::empty(),
            r matches Ok(db) ==> db.path() == path@ && db.busy_timeout() is None
                && db.sent() == Seq::<Seq<char>>::empty() && db.answers() == Seq::<Answer>::empty(),
            r matches Err(e) ==> e is Sqlite,
    {
        Database::from_opened(link_open(path))
    }

    /// The database on the connection that opening gave, or the error SQLite
    /// reported: `Ok` exactly when the open succeeded.
    pub fn from_opened(opened: Result<Link, sqlite3::Error>) -> (r: Result<Database, DbError>)
        ensures
            opened matches Ok(l) ==> r matches Ok(db) && db.traces() == l.traces(),
            r is Ok <==> opened is Ok,
            opened matches Ok(l) ==> r matches Ok(db) && db.path() == l.path()
                && db.busy_timeout() == l.busy_timeout() && db.sent() == l.sent()
                && db.answers() == Seq::<Answer>::empty(),
            r matches Err(e) ==> e is Sqlite,
    {
        match opened {
            Ok(link) => Ok(Database { link, answers: Ghost(Seq::empty()) }),
            Err(e) => Err(DbError::from_sqlite(e)),
        }
    }

    /// Makes SQLite retry a locked database for up to `ms` milliseconds.
    pub fn set_busy_timeout(&mut self, ms: usize) -> (r: Result<(), DbError>)
        ensures
            final(self).traces() == old(self).traces(),
            final(self).busy_timeout() == Some(ms),
            final(self).path() == old(self).path(),
            final(self).sent() == old(self).sent(),
            final(self).answers() == old(self).answers(),
            r matches Err(e) ==> e is Sqlite,
    {
        match link_set_busy_timeout(&mut self.link, ms) {
            Ok(()) => Ok(()),
            Err(e) => Err(DbError::from_sqlite(e)),
        }
    }

    /// Runs `sql`, ignoring any rows it produces.
    pub fn execute(&mut self, sql: &str) -> (r: Result<(), DbError>)
        ensures
            final(self).traces() == old(self).traces(),
            final(self).sent() == old(self).sent().push(sql@),
            final(self).answers() == old(self).answers().push(match r { Ok(_) => Answer::Done, Err(e) => Answer::Failed(e) }),
            final(self).path() == old(self).path(),
            final(self).busy_timeout() == old(self).busy_timeout(),
            r matches Err(e) ==> e is Sqlite,
    {
        let r = run_execute(&mut self.link, sql);
        self.answers = Ghost(self.answers@.push(match r { Ok(_) => Answer::Done, Err(ref e) => Answer::Failed(*e) }));
        r
    }

    /// Whether the query `sql` produces at least one row.
    pub fn has_row(&mut self, sql: &str) -> (r: Result<bool, DbError>)
        ensures
            r matches Ok(b) ==> final(self).traces() == old(self).traces().push(
                (sql@, seq![if b { Event::Row } else { Event::Done }]),
            ),
            final(self).sent() == old(self).sent().push(sql@),
            final(self).answers() == old(self).answers().push(
                match r { Ok(b) => Answer::Found(b), Err(e) => Answer::Failed(e) },
            ),
            final(self).path() == old(self).path(),
            final(self).busy_timeout() == old(self).busy_timeout(),
            r matches Err(e) ==> e is Sqlite,
    {
        let r = run_has_row(&mut self.link, sql);
        self.answers = Ghost(self.answers@.push(match r { Ok(b) => Answer::Found(b), Err(ref e) => Answer::Failed(*e) }));
        r
    }

    /// The integer in the first column of the first row of the query `sql`;
    /// `NoRow` where the query produces no row.
    pub fn first_integer(&mut self, sql: &str) -> (r: Result<i64, DbError>)
        ensures
            r matches Ok(v) ==> final(self).traces() == old(self).traces().push(
                (sql@, seq![Event::Row, Event::Integer(0, v)]),
            ),
            r matches Err(e) ==> (e is NoRow ==> final(self).traces() == old(self).traces().push(
                (sql@, seq![Event::Done]),
            )),
            final(self).sent() == old(self).sent().push(sql@),
            final(self).answers() == old(self).answers().push(
                match r { Ok(v) => Answer::Integer(v), Err(e) => Answer::Failed(e) },
            ),
            final(self).path() == old(self).path(),
            final(self).busy_timeout() == old(self).busy_timeout(),
            r matches Err(e) ==> e is Sqlite || e is NoRow,
    {
        let r = run_first_integer(&mut self.link, sql);
        self.answers = Ghost(self.answers@.push(match r { Ok(v) => Answer::Integer(v), Err(ref e) => Answer::Failed(*e) }));
        r
    }

    /// The texts in column `col` of every row of the query `sql`, in order;
    /// `UnexpectedType` where one of them is not text.
    pub fn text_column(&mut self, sql: &str, col: usize) -> (r: Result<Vec<String>, DbError>)
        ensures
            r matches Ok(v) ==> {
                let ev = final(self).traces().last().1;
                &&& final(self).traces() == old(self).traces().push((sql@, ev))
                &&& stepped_to_end(ev) || v.len() == usize::MAX
                &&& count_rows(ev) == v.len()
                &&& texts_read(ev, col) == texts_view(v@)
            },
            final(self).sent() == old(self).sent().push(sql@),
            final(self).answers() == old(self).answers().push(
                match r { Ok(v) => Answer::Texts(texts_view(v@)), Err(e) => Answer::Failed(e) },
            ),
            final(self).path() == old(self).path(),
            final(self).busy_timeout() == old(self).busy_timeout(),
            r matches Err(e) ==> e is Sqlite || e is UnexpectedType,
    {
        let r = run_text_column(&mut self.link, sql, col);
        self.answers = Ghost(self.answers@.push(
            match r { Ok(ref v) => Answer::Texts(texts_view(v@)), Err(ref e) => Answer::Failed(*e) },
        ));
        r
    }

    /// For every row of the query `sql`, in order, the integer in column
    /// `icol` and the text in column `tcol`; `UnexpectedType` where a row
    /// holds something else there (the text column is checked first).
    pub fn integer_text_rows(&mut self, sql: &str, icol: usize, tcol: usize) -> (r: Result<Vec<(i64, String)>, DbError>)
        ensures
            r matches Ok(v) ==> {
                let ev = final(self).traces().last().1;
                &&& final(self).traces() == old(self).traces().push((sql@, ev))
                &&& stepped_to_end(ev) || v.len() == usize::MAX
                &&& count_rows(ev) == v.len()
                &&& integers_read(ev, icol) == v@.map_values(|row: (i64, String)| row.0)
                &&& texts_read(ev, tcol) == v@.map_values(|row: (i64, String)| row.1@)
            },
            final(self).sent() == old(self).sent().push(sql@),
            final(self).answers() == old(self).answers().push(
                match r { Ok(v) => Answer::Rows(int_text_rows_view(v@)), Err(e) => Answer::Failed(e) },
            ),
            final(self).path() == old(self).path(),
            final(self).busy_timeout() == old(self).busy_timeout(),
            r matches Err(e) ==> e is Sqlite || e is UnexpectedType,
    {
        let r = run_integer_text_rows(&mut self.link, sql, icol, tcol);
        self.answers = Ghost(self.answers@.push(
            match r { Ok(ref v) => Answer::Rows(int_text_rows_view(v@)), Err(ref e) => Answer::Failed(*e) },
        ));
        r
    }
}

} // verus!
