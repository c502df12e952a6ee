//! Filling a new database with the word list.

use vstd::prelude::*;
use crate::store::Answer;
use crate::store::Database;
use crate::store::DbError;
use crate::text::all_alphanumeric;
use crate::text::is_alphanumeric_str;
use crate::text::trim;
use crate::text::trim_str;
use crate::sql::create_tables_sql;
use crate::sql::create_table_queries;
use crate::sql::insert_word_sql;
use crate::sql::insert_word_query;
use crate::request::strings_view;

verus! {

/// The statements that create the tables and add the lines, trimmed, as words.
pub open spec fn init_statements(lines: Seq<Seq<char>>) -> Seq<Seq<char>> {
    create_tables_sql() + lines.map_values(|l: Seq<char>| insert_word_sql(trim(l)))
}

/// `n` answers saying that the statement ran.
pub open spec fn all_done(n: int) -> Seq<Answer> {
    Seq::new(n as nat, |i: int| Answer::Done)
}

proof fn lemma_all_done_push(n: int)
    requires
        0 <= n,
    ensures
        all_done(n).push(Answer::Done) == all_done(n + 1),
{
    assert(all_done(n).push(Answer::Done) =~= all_done(n + 1));
}

/// Opens (or creates) the database file at `path`.
pub fn open_db(path: &str) -> (r: Result<Database, DbError>)
    ensures
        r matches Ok(db) ==> db.path() == path@ && db.busy_timeout() is None
            && db.sent() == Seq::<Seq<char>>::empty() && db.answers() == Seq::<Answer>::empty(),
        r matches Err(e) ==> e is Sqlite,
{
    Database::open(path)
}

/// Creates the three tables. Stops at the first statement that fails.
pub fn create_tables(db: &mut Database) -> (r: Result<(), DbError>)
    ensures
        r is Ok ==> final(db).sent() == old(db).sent() + create_tables_sql()
            && final(db).answers() == old(db).answers() + all_done(3),
        r matches Err(e) ==> exists|n: int| 1 <= n <= 3
            && final(db).sent() == old(db).sent() + #[trigger] create_tables_sql().take(n)
            && final(db).answers() == old(db).answers() + all_done(n - 1).push(Answer::Failed(e)),
        r matches Err(e) ==> e is Sqlite,
{
    let ghost all = create_tables_sql();
    let ghost s0 = db.sent();
    let ghost a0 = db.answers();
    let tables = create_table_queries();
    assert(tables@.map_values(|q: &str| q@).len() == 3);
    let mut t: usize = 0;
    while t < tables.len()
        invariant
            t <= tables.len(),
            tables@.map_values(|q: &str| q@) == create_tables_sql(),
            tables.len() == 3,
            all == create_tables_sql(),
            db.sent() == s0 + all.take(t as int),
            db.answers() == a0 + all_done(t as int),
            s0 == old(db).sent(),
            a0 == old(db).answers(),
        decreases tables.len() - t,
    {
        let r = db.execute(tables[t]);
        proof {
            assert(tables@[t as int]@ == create_tables_sql()[t as int]);
            assert(all.take(t + 1) =~= all.take(t as int).push(all[t as int]));
            assert(db.sent() == s0 + create_tables_sql().take(t + 1));
        }
        match r {
            Ok(()) => {
                proof {
                    lemma_all_done_push(t as int);
                    assert(db.answers() =~= a0 + all_done(t + 1));
                }
            },
            Err(e) => {
                assert(db.answers() =~= a0 + all_done(t + 1 - 1).push(Answer::Failed(e)));
                return Err(e);
            },
        }
        t = t + 1;
    }
    assert(all.take(3) =~= all);
    Ok(())
}

/// Adds a line, without its surrounding white space, as a word: `Ok(false)`,
/// with nothing sent, where the trimmed line is not alphanumeric.
pub fn add_word(db: &mut Database, line: &str) -> (r: Result<bool, DbError>)
    ensures
        !all_alphanumeric(trim(line@)) ==> r == Ok::<bool, DbError>(false) && final(db).sent() == old(db).sent(),
        all_alphanumeric(trim(line@)) ==> final(db).sent() == old(db).sent().push(insert_word_sql(trim(line@)))
            && (r is Ok ==> r == Ok::<bool, DbError>(true)),
        !all_alphanumeric(trim(line@)) ==> final(db).answers() == old(db).answers(),
        all_alphanumeric(trim(line@)) ==> final(db).answers() == old(db).answers().push(
            match r { Ok(_) => Answer::Done, Err(e) => Answer::Failed(e) },
        ),
        r matches Err(e) ==> e is Sqlite,
{
    let word = trim_str(line);
    if !is_alphanumeric_str(word.as_str()) {
        return Ok(false);
    }
    let q = insert_word_query(word.as_str());
    match db.execute(q.as_str()) {
        Ok(()) => Ok(true),
        Err(e) => Err(e),
    }
}

/// Creates the tables and adds each line, without its surrounding white
/// space, as a word. Stops at the first statement that fails.
pub fn write_db(db: &mut Database, lines: &Vec<String>) -> (r: Result<(), DbError>)
    requires
        forall|i: int| 0 <= i < lines.len() ==> all_alphanumeric(trim(#[trigger] lines@[i]@)),
    ensures
        r is Ok ==> final(db).sent() == old(db).sent() + init_statements(strings_view(lines@))
            && final(db).answers() == old(db).answers() + all_done(3 + lines.len()),
        r matches Err(e) ==> exists|n: int| 1 <= n <= init_statements(strings_view(lines@)).len()
            && final(db).sent() == old(db).sent() + #[trigger] init_statements(strings_view(lines@)).take(n)
            && final(db).answers() == old(db).answers() + all_done(n - 1).push(Answer::Failed(e)),
        r matches Err(e) ==> e is Sqlite,
{
    let ghost all = init_statements(strings_view(lines@));
    let ghost s0 = db.sent();
    let ghost a0 = db.answers();
    assert(all.len() == 3 + lines.len());
    match create_tables(db) {
        Ok(()) => {},
        Err(e) => {
            proof {
                let n = choose|n: int| 1 <= n <= 3 && db.sent() == s0 + #[trigger] create_tables_sql().take(n)
                    && db.answers() == a0 + all_done(n - 1).push(Answer::Failed(e));
                assert(all.take(n) =~= create_tables_sql().take(n));
                assert(db.sent() == s0 + init_statements(strings_view(lines@)).take(n));
            }
            return Err(e);
        },
    }
    assert(all.take(3) =~= create_tables_sql());
    let mut i: usize = 0;
    while i < lines.len()
        invariant
            i <= lines.len(),
            all == init_statements(strings_view(lines@)),
            all.len() == 3 + lines.len(),
            db.sent() == s0 + all.take(3 + i),
            db.answers() == a0 + all_done(3 + i),
            s0 == old(db).sent(),
            a0 == old(db).answers(),
            forall|j: int| 0 <= j < lines.len() ==> all_alphanumeric(trim(#[trigger] lines@[j]@)),
        decreases lines.len() - i,
    {
        let r = add_word(db, lines[i].as_str());
        proof {
            assert(all_alphanumeric(trim(lines@[i as int]@)));
            assert(all[3 + i] == insert_word_sql(trim(lines@[i as int]@)));
            assert(all.take(3 + i + 1) =~= all.take(3 + i).push(all[3 + i]));
            assert(db.sent() == s0 + init_statements(strings_view(lines@)).take(3 + i + 1));
        }
        match r {
            Ok(_) => {
                proof {
                    lemma_all_done_push(3 + i);
                    assert(db.answers() =~= a0 + all_done(3 + i + 1));
                }
            },
            Err(e) => {
                assert(db.answers() =~= a0 + all_done(3 + i + 1 - 1).push(Answer::Failed(e)));
                return Err(e);
            },
        }
        i = i + 1;
    }
    assert(all.take(3 + lines.len()) =~= all);
    Ok(())
}

/// The position of the first line that is not alphanumeric once trimmed.
pub open spec fn first_bad_line(lines: Seq<Seq<char>>, n: int) -> bool {
    &&& 0 <= n < lines.len()
    &&& !all_alphanumeric(trim(lines[n]))
    &&& forall|i: int| 0 <= i < n ==> all_alphanumeric(trim(#[trigger] lines[i]))
}

/// Fills the database with the word list: the lines before the first one
/// that is not alphanumeric once trimmed. Returns the position of that line,
/// if there is one; the lines after it are not read.
pub fn write_word_list(db: &mut Database, lines: &Vec<String>) -> (r: Result<Option<usize>, DbError>)
    ensures
        r matches Ok(None) ==> (forall|i: int| 0 <= i < lines.len() ==> all_alphanumeric(trim(#[trigger] lines@[i]@)))
            && final(db).sent() == old(db).sent() + init_statements(strings_view(lines@))
            && final(db).answers() == old(db).answers() + all_done(3 + lines.len()),
        r matches Ok(Some(n)) ==> first_bad_line(strings_view(lines@), n as int)
            && final(db).sent() == old(db).sent() + init_statements(strings_view(lines@).take(n as int))
            && final(db).answers() == old(db).answers() + all_done(3 + n),
        r matches Err(e) ==> exists|k: int, n: int|
            0 <= k <= lines.len()
            && (k == lines.len() || first_bad_line(strings_view(lines@), k))
            && (forall|i: int| 0 <= i < k ==> all_alphanumeric(trim(#[trigger] lines@[i]@)))
            && 1 <= n <= init_statements(strings_view(lines@).take(k)).len()
            && final(db).sent() == old(db).sent() + #[trigger] init_statements(strings_view(lines@).take(k)).take(n)
            && final(db).answers() == old(db).answers() + all_done(n - 1).push(Answer::Failed(e)),
        r matches Err(e) ==> e is Sqlite,
{
    let ghost s0 = db.sent();
    let ghost a0 = db.answers();
    let mut good: Vec<String> = Vec::new();
    let mut i: usize = 0;
    let mut bad = false;
    while i < lines.len() && !bad
        invariant
            i <= lines.len(),
            good@ == lines@.take(i as int),
            bad ==> i < lines.len() && !all_alphanumeric(trim(lines@[i as int]@)),
            forall|j: int| 0 <= j < i ==> all_alphanumeric(trim(#[trigger] lines@[j]@)),
        decreases lines.len() - i, if bad { 0int } else { 1int },
    {
        let w = trim_str(lines[i].as_str());
        if !is_alphanumeric_str(w.as_str()) {
            bad = true;
        } else {
            good.push(lines[i].clone());
            assert(good@ =~= lines@.take(i + 1));
            i = i + 1;
        }
    }
    assert(strings_view(good@) =~= strings_view(lines@).take(i as int));
    match write_db(db, &good) {
        Ok(()) => {},
        Err(e) => {
            proof {
                let k = i as int;
                let n = choose|n: int| 1 <= n <= init_statements(strings_view(good@)).len()
                    && db.sent() == s0 + #[trigger] init_statements(strings_view(good@)).take(n)
                    && db.answers() == a0 + all_done(n - 1).push(Answer::Failed(e));
                if !bad {
                    assert(good@ =~= lines@);
                } else {
                    assert(first_bad_line(strings_view(lines@), k));
                }
                assert(db.sent() == s0 + init_statements(strings_view(lines@).take(k)).take(n));
            }
            return Err(e);
        },
    }
    if bad {
        assert(first_bad_line(strings_view(lines@), i as int));
        Ok(Some(i))
    } else {
        assert(good@ =~= lines@);
        Ok(None)
    }
}

} // verus!
