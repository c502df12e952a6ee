//! The SQL statements the dictionary sends to its database. Words and
//! definitions are spliced into them between single quotes, so that SQLite reads them as text.

use vstd::prelude::*;
use crate::text::decimal;
use crate::text::decimal_string;
use crate::text::decimal_usize;

verus! {

/// The statement that finds a word in the word list.
pub open spec fn word_lookup_sql(word: Seq<char>) -> Seq<char> {
    "SELECT * FROM Words WHERE Word = '"@ + word + "';"@
}

/// The statement that reads the stored definition of a word.
pub open spec fn definition_sql(word: Seq<char>) -> Seq<char> {
    "SELECT * FROM Definitions WHERE Definee = '"@ + word + "';"@
}

/// The statement that counts the words of the word list.
pub open spec fn count_words_sql() -> Seq<char> {
    "SELECT COUNT(*) FROM Words;"@
}

/// The statement that counts the words that have a definition.
pub open spec fn count_defined_sql() -> Seq<char> {
    "SELECT COUNT(*) FROM Definitions WHERE Idx = 0;"@
}

/// The statement that lists the five most recently defined words.
pub open spec fn recent_words_sql() -> Seq<char> {
    "SELECT Word, Timestamp FROM Log ORDER BY Timestamp DESC LIMIT 5;"@
}

/// One row of the definition table: the defined word, the position, the
/// defining word.
pub open spec fn definition_row_sql(word: Seq<char>, idx: int, part: Seq<char>) -> Seq<char> {
    "('"@ + word + "', "@ + decimal(idx) + ", '"@ + part + "')"@
}

/// The rows for the first `n` parts, separated by commas.
pub open spec fn definition_rows_sql(word: Seq<char>, parts: Seq<Seq<char>>, n: int) -> Seq<char>
    decreases n,
{
    if n <= 0 {
        Seq::<char>::empty()
    } else if n == 1 {
        definition_row_sql(word, 0, parts[0])
    } else {
        definition_rows_sql(word, parts, n - 1) + ","@ + definition_row_sql(word, n - 1, parts[n - 1])
    }
}

/// The transaction that replaces the definition of `word` by `parts` and
/// records in the log that the word was defined at `time`.
pub open spec fn write_definition_sql(word: Seq<char>, parts: Seq<Seq<char>>, time: int) -> Seq<char> {
    "BEGIN; DELETE FROM Definitions WHERE Definee ='"@ + word + "'; "@
        + "INSERT INTO Definitions(Definee, Idx, Definer) VALUES"@
        + definition_rows_sql(word, parts, parts.len() as int)
        + ";"@
        + "DELETE FROM Log WHERE Word='"@ + word + "';"@
        + "INSERT INTO Log(Word, Timestamp) VALUES('"@ + word + "',"@ + decimal(time) + ");"@
        + "COMMIT;"@
}

/// The statements that create the three tables of a new database.
pub open spec fn create_tables_sql() -> Seq<Seq<char>> {
    seq![
        "CREATE TABLE Words(Word TEXT);"@,
        "CREATE TABLE Definitions(Definee TEXT, Idx INTEGER, Definer TEXT);"@,
        "CREATE TABLE Log(Word TEXT, Timestamp INTEGER);"@,
    ]
}

/// The statement that adds a word to the word list.
pub open spec fn insert_word_sql(word: Seq<char>) -> Seq<char> {
    "INSERT INTO Words VALUES('"@ + word + "');"@
}

pub fn word_lookup_query(word: &str) -> (q: String)
    ensures
        q@ == word_lookup_sql(word@),
{
    let mut q = String::new();
    q.append("SELECT * FROM Words WHERE Word = '");
    q.append(word);
    q.append("';");
    q
}

pub fn definition_query(word: &str) -> (q: String)
    ensures
        q@ == definition_sql(word@),
{
    let mut q = String::new();
    q.append("SELECT * FROM Definitions WHERE Definee = '");
    q.append(word);
    q.append("';");
    q
}

pub fn count_words_query() -> (q: &'static str)
    ensures
        q@ == count_words_sql(),
{
    "SELECT COUNT(*) FROM Words;"
}

pub fn count_defined_query() -> (q: &'static str)
    ensures
        q@ == count_defined_sql(),
{
    "SELECT COUNT(*) FROM Definitions WHERE Idx = 0;"
}

pub fn recent_words_query() -> (q: &'static str)
    ensures
        q@ == recent_words_sql(),
{
    "SELECT Word, Timestamp FROM Log ORDER BY Timestamp DESC LIMIT 5;"
}

pub fn write_definition_query(word: &str, parts: &Vec<String>, time: i64) -> (q: String)
    ensures
        q@ == write_definition_sql(word@, parts@.map_values(|p: String| p@), time as int),
{
    let ghost ps = parts@.map_values(|p: String| p@);
    let mut q = String::new();
    q.append("BEGIN; DELETE FROM Definitions WHERE Definee ='");
    q.append(word);
    q.append("'; ");
    q.append("INSERT INTO Definitions(Definee, Idx, Definer) VALUES");
    let ghost head = q@;
    let mut idx: usize = 0;
    while idx < parts.len()
        invariant
            idx <= parts.len(),
            ps == parts@.map_values(|p: String| p@),
            q@ == head + definition_rows_sql(word@, ps, idx as int),
        decreases parts.len() - idx,
    {
        let ghost before = q@;
        if idx != 0 {
            q.append(",");
        }
        q.append("('");
        q.append(word);
        q.append("', ");
        let n = decimal_usize(idx);
        q.append(n.as_str());
        q.append(", '");
        q.append(parts[idx].as_str());
        q.append("')");
        proof {
            assert(ps[idx as int] == parts@[idx as int]@);
            if idx == 0 {
                assert(definition_rows_sql(word@, ps, 0) =~= Seq::<char>::empty());
            }
            assert(q@ =~= head + definition_rows_sql(word@, ps, idx + 1));
        }
        idx = idx + 1;
    }
    q.append(";");
    q.append("DELETE FROM Log WHERE Word='");
    q.append(word);
    q.append("';");
    q.append("INSERT INTO Log(Word, Timestamp) VALUES('");
    q.append(word);
    q.append("',");
    let t = decimal_string(time);
    q.append(t.as_str());
    q.append(");");
    q.append("COMMIT;");
    assert(q@ =~= write_definition_sql(word@, ps, time as int));
    q
}

pub fn create_table_queries() -> (qs: Vec<&'static str>)
    ensures
        qs@.map_values(|q: &str| q@) == create_tables_sql(),
{
    let qs = vec![
        "CREATE TABLE Words(Word TEXT);",
        "CREATE TABLE Definitions(Definee TEXT, Idx INTEGER, Definer TEXT);",
        "CREATE TABLE Log(Word TEXT, Timestamp INTEGER);",
    ];
    assert(qs@.map_values(|q: &str| q@) =~= create_tables_sql());
    qs
}

pub fn insert_word_query(word: &str) -> (q: String)
    ensures
        q@ == insert_word_sql(word@),
{
    let mut q = String::new();
    q.append("INSERT INTO Words VALUES('");
    q.append(word);
    q.append("');");
    q
}

} // verus!
