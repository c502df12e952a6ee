//! An SQLite connection together with what was handed to it: the file it was
//! opened on, the busy timeout last set, and every statement, in order; and,
//! for each prepared statement, what each step and each read of a column
//! gave. The fields are private, so only the functions below, each of which
//! makes the call that it records, change the record.

use vstd::prelude::*;
use crate::store::ColumnType;

verus! {

/// An open SQLite connection and the record of what it was given.
pub struct Link {
    conn: sqlite3::Connection,
    path: Ghost<Seq<char>>,
    busy_timeout: Ghost<Option<usize>>,
    sent: Ghost<Seq<Seq<char>>>,
    traces: Ghost<Seq<(Seq<char>, Seq<Event>)>>,
}

/// What a step of a prepared statement, or a read from its current row, gave.
pub enum Event {
    /// A step: a row is available.
    Row,
    /// A step: the statement is done, it yields no more rows.
    Done,
    /// The type of a column of the current row.
    Kind(usize, ColumnType),
    /// The integer read from a column of the current row.
    Integer(usize, i64),
    /// The text read from a column of the current row.
    Text(usize, Seq<char>),
    /// The call failed.
    Failed,
}

/// A prepared statement, with what its steps and reads gave so far.
pub struct Query<'l> {
    stmt: sqlite3::Statement<'l>,
    sql: Ghost<Seq<char>>,
    events: Ghost<Seq<Event>>,
}

impl<'l> Query<'l> {
    /// The statement it was prepared from.
    pub closed spec fn sql(&self) -> Seq<char> {
        self.sql@
    }

    /// What its steps and reads gave, in order.
    pub closed spec fn events(&self) -> Seq<Event> {
        self.events@
    }
}

/// What a finished query gave: its statement and its events.
pub struct Trace {
    sql: Ghost<Seq<char>>,
    events: Ghost<Seq<Event>>,
}

impl Trace {
    /// The statement the query was prepared from.
    pub closed spec fn sql(&self) -> Seq<char> {
        self.sql@
    }

    /// What the steps and reads of the query gave, in order.
    pub closed spec fn events(&self) -> Seq<Event> {
        self.events@
    }
}

impl Link {
    /// The path handed to `sqlite3::open`.
    pub closed spec fn path(&self) -> Seq<char> {
        self.path@
    }

    /// The milliseconds last handed to `Connection::set_busy_timeout`.
    pub closed spec fn busy_timeout(&self) -> Option<usize> {
        self.busy_timeout@
    }

    /// The statements handed to `Connection::execute` and
    /// `Connection::prepare`, in order.
    pub closed spec fn sent(&self) -> Seq<Seq<char>> {
        self.sent@
    }

    /// For each query finished on this connection, its statement and what
    /// its steps and reads gave, in order.
    pub closed spec fn traces(&self) -> Seq<(Seq<char>, Seq<Event>)> {
        self.traces@
    }
}

/// Ends a query, keeping what it gave.
pub fn query_close(q: Query) -> (t: Trace)
    ensures
        t.sql() == q.sql(),
        t.events() == q.events(),
{
    Trace { sql: q.sql, events: q.events }
}

/// Adds what a finished query gave to the record of the connection.
pub fn link_record(link: &mut Link, t: Trace)
    ensures
        final(link).traces() == old(link).traces().push((t.sql(), t.events())),
        final(link).sent() == old(link).sent(),
        final(link).path() == old(link).path(),
        final(link).busy_timeout() == old(link).busy_timeout(),
{
    link.traces = Ghost(link.traces@.push((t.sql@, t.events@)));
}

/// Calls `sqlite3::open` on `path`, which opens (or creates) the database
/// file. Whether it succeeds depends on the file system, so that is not
/// stated; the connection it gives is recorded as opened on `path`.
#[verifier::external_body]
pub fn link_open(path: &str) -> (r: Result<Link, sqlite3::Error>)
    ensures
        r matches Ok(l) ==> l.path() == path@ && l.busy_timeout() is None
            && l.sent() == Seq::<Seq<char>>::empty() && l.traces() == Seq::<(Seq<char>, Seq<Event>)>::empty(),
{
    match sqlite3::open(path) {
        Ok(conn) => Ok(Link {
            conn,
            path: Ghost(path@),
            busy_timeout: Ghost(None),
            sent: Ghost(Seq::empty()),
            traces: Ghost(Seq::empty()),
        }),
        Err(e) => Err(e),
    }
}

/// Calls `Connection::set_busy_timeout` with `ms`, and records `ms`. Whether
/// it succeeds is not stated.
#[verifier::external_body]
pub fn link_set_busy_timeout(link: &mut Link, ms: usize) -> (r: Result<(), sqlite3::Error>)
    ensures
        final(link).busy_timeout() == Some(ms),
        final(link).path() == old(link).path(),
        final(link).sent() == old(link).sent(),
        final(link).traces() == old(link).traces(),
{
    link.busy_timeout = Ghost(Some(ms));
    link.conn.set_busy_timeout(ms)
}

/// Calls `Connection::execute` with `sql`, which runs the statements of
/// `sql`, and records `sql`. What it does depends on the database file, so
/// the outcome is not stated.
#[verifier::external_body]
pub fn link_execute(link: &mut Link, sql: &str) -> (r: Result<(), sqlite3::Error>)
    ensures
        final(link).sent() == old(link).sent().push(sql@),
        final(link).path() == old(link).path(),
        final(link).busy_timeout() == old(link).busy_timeout(),
        final(link).traces() == old(link).traces(),
{
    link.sent = Ghost(link.sent@.push(sql@));
    link.conn.execute(sql)
}

/// Calls `Connection::prepare` with `sql`, and records `sql`. Whether it
/// succeeds is not stated; the statement it gives is recorded as prepared
/// from `sql`, with no step taken yet.
#[verifier::external_body]
pub fn link_prepare<'l>(link: &'l mut Link, sql: &str) -> (r: Result<Query<'l>, sqlite3::Error>)
    ensures
        final(link).sent() == old(link).sent().push(sql@),
        final(link).path() == old(link).path(),
        final(link).busy_timeout() == old(link).busy_timeout(),
        final(link).traces() == old(link).traces(),
        r matches Ok(q) ==> q.sql() == sql@ && q.events() == Seq::<Event>::empty(),
{
    link.sent = Ghost(link.sent@.push(sql@));
    let conn: &'l sqlite3::Connection = &link.conn;
    match conn.prepare(sql) {
        Ok(stmt) => Ok(Query { stmt, sql: Ghost(sql@), events: Ghost(Seq::empty()) }),
        Err(e) => Err(e),
    }
}

/// Calls `Statement::next`: `true` where a row is available, `false` where the
/// statement is done; and records which. The rows depend on the database
/// file, so the outcome is not stated.
#[verifier::external_body]
pub fn sqlite_next(q: &mut Query) -> (r: Result<bool, sqlite3::Error>)
    ensures
        final(q).sql() == old(q).sql(),
        final(q).events() == old(q).events().push(
            match r { Ok(true) => Event::Row, Ok(false) => Event::Done, Err(_) => Event::Failed },
        ),
{
    let r = match q.stmt.next() {
        Ok(sqlite3::State::Row) => Ok(true),
        Ok(sqlite3::State::Done) => Ok(false),
        Err(e) => Err(e),
    };
    q.events = Ghost(q.events@.push(match r { Ok(true) => Event::Row, Ok(false) => Event::Done, Err(_) => Event::Failed }));
    r
}

/// Calls `Statement::kind` for a column of the current row, and records the
/// type it gives. The type is not stated.
#[verifier::external_body]
pub fn sqlite_kind(q: &mut Query, col: usize) -> (r: ColumnType)
    ensures
        final(q).sql() == old(q).sql(),
        final(q).events() == old(q).events().push(Event::Kind(col, r)),
{
    let r = match q.stmt.kind(col) {
        sqlite3::Type::Binary => ColumnType::Binary,
        sqlite3::Type::Float => ColumnType::Float,
        sqlite3::Type::Integer => ColumnType::Integer,
        sqlite3::Type::String => ColumnType::Text,
        sqlite3::Type::Null => ColumnType::Null,
    };
    q.events = Ghost(q.events@.push(Event::Kind(col, r)));
    r
}

/// Calls `Statement::read::<i64>` for a column of the current row, and
/// records the integer it gives. The integer is not stated.
#[verifier::external_body]
pub fn sqlite_read_integer(q: &mut Query, col: usize) -> (r: Result<i64, sqlite3::Error>)
    ensures
        final(q).sql() == old(q).sql(),
        final(q).events() == old(q).events().push(
            match r { Ok(v) => Event::Integer(col, v), Err(_) => Event::Failed },
        ),
{
    let r = q.stmt.read::<i64>(col);
    q.events = Ghost(q.events@.push(match r { Ok(v) => Event::Integer(col, v), Err(_) => Event::Failed }));
    r
}

/// Calls `Statement::read::<String>` for a column of the current row, and
/// records the text it gives. The text is not stated.
#[verifier::external_body]
pub fn sqlite_read_text(q: &mut Query, col: usize) -> (r: Result<String, sqlite3::Error>)
    ensures
        final(q).sql() == old(q).sql(),
        final(q).events() == old(q).events().push(
            match r { Ok(t) => Event::Text(col, t@), Err(_) => Event::Failed },
        ),
{
    let r = q.stmt.read::<String>(col);
    q.events = Ghost(q.events@.push(match r { Ok(ref t) => Event::Text(col, t@), Err(_) => Event::Failed }));
    r
}

/// The number of steps that gave a row.
pub open spec fn count_rows(ev: Seq<Event>) -> nat
    decreases ev.len(),
{
    if ev.len() == 0 {
        0
    } else {
        count_rows(ev.drop_last()) + if ev.last() is Row { 1nat } else { 0nat }
    }
}

/// The texts read from column `col`, in order.
pub open spec fn texts_read(ev: Seq<Event>, col: usize) -> Seq<Seq<char>>
    decreases ev.len(),
{
    if ev.len() == 0 {
        Seq::empty()
    } else {
        match ev.last() {
            Event::Text(c, t) if c == col => texts_read(ev.drop_last(), col).push(t),
            _ => texts_read(ev.drop_last(), col),
        }
    }
}

/// The integers read from column `col`, in order.
pub open spec fn integers_read(ev: Seq<Event>, col: usize) -> Seq<i64>
    decreases ev.len(),
{
    if ev.len() == 0 {
        Seq::empty()
    } else {
        match ev.last() {
            Event::Integer(c, v) if c == col => integers_read(ev.drop_last(), col).push(v),
            _ => integers_read(ev.drop_last(), col),
        }
    }
}

/// The statement was stepped until SQLite said it was done, and not past.
pub open spec fn stepped_to_end(ev: Seq<Event>) -> bool {
    &&& ev.len() > 0
    &&& ev.last() is Done
    &&& forall|i: int| 0 <= i < ev.len() - 1 ==> !(#[trigger] ev[i] is Done)
}


/// What one more event adds to the counts and to the values read.
pub proof fn lemma_events_push(ev: Seq<Event>, e: Event, col: usize)
    ensures
        count_rows(ev.push(e)) == count_rows(ev) + if e is Row { 1nat } else { 0nat },
        texts_read(ev.push(e), col) == match e {
            Event::Text(c, t) => if c == col { texts_read(ev, col).push(t) } else { texts_read(ev, col) },
            _ => texts_read(ev, col),
        },
        integers_read(ev.push(e), col) == match e {
            Event::Integer(c, v) => if c == col { integers_read(ev, col).push(v) } else { integers_read(ev, col) },
            _ => integers_read(ev, col),
        },
{
    assert(ev.push(e).drop_last() =~= ev);
}

} // verus!
