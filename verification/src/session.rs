//! A session of the dictionary's web interface: it looks words up, checks
//! and stores definitions, and builds the pages.

use vstd::prelude::*;
use vstd::string::StringExecFns;
use crate::html::MAIN_CSS;
use crate::html::PageData;
use crate::html::construct_html;
use crate::html::definition_complete;
use crate::html::definition_html;
use crate::html::error_page_html;
use crate::html::page_html;
use crate::html::render_definition;
use crate::html::rows_map;
use crate::html::rows_view;
use crate::request::field_value;
use crate::request::last_value;
use crate::request::pairs_view;
use crate::request::parse_path;
use crate::request::query_fields;
use crate::request::query_pairs;
use crate::request::request_parts;
use crate::request::strings_view;
use crate::sql::count_defined_query;
use crate::sql::count_defined_sql;
use crate::sql::count_words_query;
use crate::sql::count_words_sql;
use crate::sql::definition_query;
use crate::sql::definition_sql;
use crate::sql::recent_words_query;
use crate::sql::recent_words_sql;
use crate::sql::word_lookup_query;
use crate::sql::word_lookup_sql;
use crate::sql::write_definition_query;
use crate::sql::write_definition_sql;
use crate::clock::Clock;
use crate::clock::now_seconds;
use crate::store::Answer;
use crate::link::Event;
use crate::link::count_rows;
use crate::link::integers_read;
use crate::link::stepped_to_end;
use crate::link::texts_read;
use crate::store::Database;
use crate::store::DbError;
use crate::store::error_text;
use crate::store::int_text_rows_view;
use crate::store::texts_view;
use crate::text::all_alphanumeric;
use crate::text::byte_len;
use crate::text::char_at_byte;
use crate::text::char_at_byte_offset;
use crate::text::chars_of;
use crate::text::is_alphanumeric_str;
use crate::text::split;
use crate::text::split_spaces;
use crate::text::str_eq;

verus! {

/// Definition part `i` starts with the char at byte offset `i` of the word.
pub open spec fn part_fits(word: Seq<char>, parts: Seq<Seq<char>>, i: int) -> bool {
    parts[i].len() > 0 && char_at_byte(word, i) == Some(parts[i][0])
}

/// The parts spell the word: one part per byte of the word, each starting
/// with the char at that offset.
pub open spec fn is_acronym(word: Seq<char>, parts: Seq<Seq<char>>) -> bool {
    &&& parts.len() == byte_len(word)
    &&& forall|i: int| 0 <= i < parts.len() ==> part_fits(word, parts, i)
}

/// The first `parts.len()` answers found each part in the word list, in order,
/// and the parts spell the word.
pub open spec fn definition_accepted(
    word: Seq<char>,
    parts: Seq<Seq<char>>,
    answers: Seq<(Seq<char>, bool)>,
) -> bool {
    &&& is_acronym(word, parts)
    &&& answers.len() >= parts.len()
    &&& forall|i: int| 0 <= i < parts.len() ==> #[trigger] answers[i] == (parts[i], true)
}

/// The parts do not spell the word, or the answer on some part, at its
/// position, shows it unfit.
pub open spec fn definition_rejected(
    word: Seq<char>,
    parts: Seq<Seq<char>>,
    answers: Seq<(Seq<char>, bool)>,
) -> bool {
    ||| parts.len() != byte_len(word)
    ||| exists|i: int|
        0 <= i < parts.len() && i < answers.len() && (#[trigger] answers[i]).0 == parts[i] && !(
        answers[i].1 && part_fits(word, parts, i))
}

/// A written definition spells its word with parts that were all found in
/// the word list.
pub open spec fn written_ok(
    lookups: Seq<(Seq<char>, bool)>,
    entry: (Seq<char>, Seq<Seq<char>>),
) -> bool {
    &&& is_acronym(entry.0, entry.1)
    &&& forall|i: int| 0 <= i < entry.1.len() ==> lookups.contains((entry.1[i], true))
}

/// Only alphanumeric words were found, and every written definition is fine.
pub open spec fn logs_consistent(
    lookups: Seq<(Seq<char>, bool)>,
    written: Seq<(Seq<char>, Seq<Seq<char>>)>,
) -> bool {
    &&& forall|j: int| 0 <= j < lookups.len() && (#[trigger] lookups[j]).1 ==> all_alphanumeric(
        lookups[j].0,
    )
    &&& forall|k: int| 0 <= k < written.len() ==> #[trigger] written_ok(lookups, written[k])
}

proof fn lemma_lookup_keeps_consistency(
    lookups: Seq<(Seq<char>, bool)>,
    written: Seq<(Seq<char>, Seq<Seq<char>>)>,
    word: Seq<char>,
    found: bool,
)
    requires
        logs_consistent(lookups, written),
        found ==> all_alphanumeric(word),
    ensures
        logs_consistent(lookups.push((word, found)), written),
{
    let l2 = lookups.push((word, found));
    assert forall|j: int| 0 <= j < l2.len() && (#[trigger] l2[j]).1 implies all_alphanumeric(l2[j].0) by {
        if j < lookups.len() {
            assert(l2[j] == lookups[j]);
        }
    }
    assert forall|k: int| 0 <= k < written.len() implies #[trigger] written_ok(l2, written[k]) by {
        assert(written_ok(lookups, written[k]));
        let e = written[k];
        assert forall|i: int| 0 <= i < e.1.len() implies l2.contains((e.1[i], true)) by {
            assert(lookups.contains((e.1[i], true)));
            let j = choose|j: int| 0 <= j < lookups.len() && lookups[j] == (e.1[i], true);
            assert(l2[j] == (e.1[i], true));
        }
    }
}

/// The statement looks up one of the parts.
pub open spec fn looks_up_a_part(parts: Seq<Seq<char>>, q: Seq<char>) -> bool {
    exists|j: int| 0 <= j < parts.len() && all_alphanumeric(parts[j]) && q == word_lookup_sql(parts[j])
}

/// A statement that only reads: the look-up or the definition of an
/// alphanumeric word, or one of the counts of the home page.
pub open spec fn read_statement(q: Seq<char>) -> bool {
    ||| exists|w: Seq<char>| all_alphanumeric(w) && q == #[trigger] word_lookup_sql(w)
    ||| exists|w: Seq<char>| all_alphanumeric(w) && q == #[trigger] definition_sql(w)
    ||| q == count_words_sql()
    ||| q == count_defined_sql()
    ||| q == recent_words_sql()
}

/// A statement of one of the dictionary's forms, in which only alphanumeric
/// words stand between the quotes.
pub open spec fn safe_statement(q: Seq<char>) -> bool {
    ||| read_statement(q)
    ||| exists|w: Seq<char>, parts: Seq<Seq<char>>, t: int|
        all_alphanumeric(w) && (forall|i: int| 0 <= i < parts.len() ==> all_alphanumeric(#[trigger] parts[i]))
            && q == #[trigger] write_definition_sql(w, parts, t)
}

/// `after` is `before` followed by reading statements only.
pub open spec fn reads_only(before: Seq<Seq<char>>, after: Seq<Seq<char>>) -> bool {
    &&& after.len() >= before.len()
    &&& after.take(before.len() as int) == before
    &&& forall|k: int| before.len() <= k < after.len() ==> read_statement(#[trigger] after[k])
}

/// The `j`-th definition written, logged at the `j`-th time read from the
/// clock.
pub open spec fn write_number(
    written: Seq<(Seq<char>, Seq<Seq<char>>)>,
    clock: Seq<i64>,
    j: int,
) -> Seq<char> {
    write_definition_sql(written[j].0, written[j].1, clock[j] as int)
}

/// One time was read from the clock for each definition written, and every
/// statement from position `start` on reads, or writes the `j`-th definition
/// recorded in `written`, logged at the `j`-th time read from `clock`.
#[verifier::opaque]
pub open spec fn statements_accounted(
    sent: Seq<Seq<char>>,
    start: int,
    written: Seq<(Seq<char>, Seq<Seq<char>>)>,
    clock: Seq<i64>,
) -> bool {
    &&& written.len() == clock.len()
    &&& forall|k: int| start <= k < sent.len() ==> {
        ||| read_statement(#[trigger] sent[k])
        ||| exists|j: int| 0 <= j < written.len() && j < clock.len()
                && sent[k] == #[trigger] write_number(written, clock, j)
    }
}

proof fn lemma_reads_only_refl(s: Seq<Seq<char>>)
    ensures
        reads_only(s, s),
{
    assert(s.take(s.len() as int) =~= s);
}

proof fn lemma_reads_only_push(s: Seq<Seq<char>>, q: Seq<char>)
    requires
        read_statement(q),
    ensures
        reads_only(s, s.push(q)),
{
    assert(s.push(q).take(s.len() as int) =~= s);
}

proof fn lemma_reads_only_trans(a: Seq<Seq<char>>, b: Seq<Seq<char>>, c: Seq<Seq<char>>)
    requires
        reads_only(a, b),
        reads_only(b, c),
    ensures
        reads_only(a, c),
{
    assert(c.take(a.len() as int) =~= a) by {
        assert forall|i: int| 0 <= i < a.len() implies c.take(a.len() as int)[i] == a[i] by {
            assert(c[i] == c.take(b.len() as int)[i]);
            assert(b[i] == b.take(a.len() as int)[i]);
        }
    }
    assert forall|k: int| a.len() <= k < c.len() implies read_statement(#[trigger] c[k]) by {
        if k < b.len() {
            assert(c[k] == c.take(b.len() as int)[k]);
        }
    }
}

proof fn lemma_accounted_reads(
    before: Seq<Seq<char>>,
    after: Seq<Seq<char>>,
    start: int,
    written: Seq<(Seq<char>, Seq<Seq<char>>)>,
    clock: Seq<i64>,
)
    requires
        0 <= start,
        statements_accounted(before, start, written, clock),
        reads_only(before, after),
    ensures
        statements_accounted(after, start, written, clock),
{
    reveal(statements_accounted);
    assert forall|k: int| start <= k < after.len() implies {
        ||| read_statement(#[trigger] after[k])
        ||| exists|j: int| 0 <= j < written.len() && j < clock.len()
                && after[k] == #[trigger] write_number(written, clock, j)
    } by {
        if k < before.len() {
            assert(after[k] == after.take(before.len() as int)[k]);
        }
    }
}

proof fn lemma_accounted_write(
    sent: Seq<Seq<char>>,
    start: int,
    written: Seq<(Seq<char>, Seq<Seq<char>>)>,
    clock: Seq<i64>,
    word: Seq<char>,
    parts: Seq<Seq<char>>,
    t: i64,
)
    requires
        0 <= start,
        statements_accounted(sent, start, written, clock),
    ensures
        statements_accounted(
            sent.push(write_definition_sql(word, parts, t as int)),
            start,
            written.push((word, parts)),
            clock.push(t),
        ),
{
    reveal(statements_accounted);
    let s2 = sent.push(write_definition_sql(word, parts, t as int));
    let w2 = written.push((word, parts));
    let c2 = clock.push(t);
    assert forall|k: int| start <= k < s2.len() implies {
        ||| read_statement(#[trigger] s2[k])
        ||| exists|j: int| 0 <= j < w2.len() && j < c2.len() && s2[k] == #[trigger] write_number(w2, c2, j)
    } by {
        if k < sent.len() {
            assert(s2[k] == sent[k]);
            if !read_statement(sent[k]) {
                let j = choose|j: int| 0 <= j < written.len() && j < clock.len()
                    && sent[k] == #[trigger] write_number(written, clock, j);
                assert(w2[j] == written[j]);
                assert(c2[j] == clock[j]);
                assert(write_number(w2, c2, j) == write_number(written, clock, j));
            }
        } else {
            let j = written.len() as int;
            assert(w2[j] == (word, parts));
            assert(c2[j] == t);
            assert(s2[k] == write_number(w2, c2, j));
        }
    }
}

/// `after` is `before` followed by safe statements only.
pub open spec fn safe_extension(before: Seq<Seq<char>>, after: Seq<Seq<char>>) -> bool {
    &&& after.len() >= before.len()
    &&& after.take(before.len() as int) == before
    &&& forall|k: int| before.len() <= k < after.len() ==> safe_statement(#[trigger] after[k])
}

proof fn lemma_safe_extension_refl(s: Seq<Seq<char>>)
    ensures
        safe_extension(s, s),
{
    assert(s.take(s.len() as int) =~= s);
}

proof fn lemma_safe_extension_trans(a: Seq<Seq<char>>, b: Seq<Seq<char>>, c: Seq<Seq<char>>)
    requires
        safe_extension(a, b),
        safe_extension(b, c),
    ensures
        safe_extension(a, c),
{
    assert(c.take(a.len() as int) =~= a) by {
        assert forall|i: int| 0 <= i < a.len() implies c.take(a.len() as int)[i] == a[i] by {
            assert(c[i] == c.take(b.len() as int)[i]);
            assert(b[i] == b.take(a.len() as int)[i]);
        }
    }
    assert forall|k: int| a.len() <= k < c.len() implies safe_statement(#[trigger] c[k]) by {
        if k < b.len() {
            assert(c[k] == c.take(b.len() as int)[k]);
            assert(safe_statement(b[k]));
        }
    }
}

proof fn lemma_part_lookups_safe(before: Seq<Seq<char>>, after: Seq<Seq<char>>, parts: Seq<Seq<char>>)
    requires
        after.len() >= before.len(),
        after.take(before.len() as int) == before,
        forall|k: int| 0 <= k < after.skip(before.len() as int).len()
            ==> looks_up_a_part(parts, #[trigger] after.skip(before.len() as int)[k]),
    ensures
        safe_extension(before, after),
        reads_only(before, after),
{
    assert forall|k: int| before.len() <= k < after.len() implies read_statement(#[trigger] after[k]) by {
        let q = after.skip(before.len() as int)[k - before.len()];
        assert(q == after[k]);
        assert(looks_up_a_part(parts, q));
        let j = choose|j: int| 0 <= j < parts.len() && all_alphanumeric(parts[j]) && q == word_lookup_sql(parts[j]);
        assert(q == word_lookup_sql(parts[j]));
    }
}

proof fn lemma_safe_push(s: Seq<Seq<char>>, q: Seq<char>)
    requires
        safe_statement(q),
    ensures
        safe_extension(s, s.push(q)),
{
    assert(s.push(q).take(s.len() as int) =~= s);
}

/// The statements that gather the numbers of the home page, in order.
pub open spec fn count_statements() -> Seq<Seq<char>> {
    seq![count_words_sql(), count_defined_sql(), recent_words_sql()]
}

/// The path names the page of a word.
pub open spec fn is_define_path(path: Seq<Seq<char>>) -> bool {
    path.len() == 1 && path[0] == "define"@
}

/// The view of an optional string.
pub open spec fn opt_view(o: Option<String>) -> Option<Seq<char>> {
    match o {
        None => None,
        Some(s) => Some(s@),
    }
}

/// The message of the page for a word that is not in the word list.
pub open spec fn not_a_word_msg() -> Seq<char> {
    "that's not a word"@
}

/// The message shown beside a rejected definition.
pub open spec fn invalid_definition_msg() -> Seq<char> {
    "invalid definition"@
}

/// The page shows the definition of `word` as read from the database.
pub open spec fn shows_stored_definition(word: Seq<char>, html: Seq<char>) -> bool {
    exists|m: Map<int, Seq<char>>|
        definition_complete(byte_len(word), m) && html == #[trigger] definition_html(byte_len(word), m)
}

/// What building the page for `path` and `query` returns and does, given the
/// answers the database gave: `pre` and `post` are the session before and
/// after.
pub open spec fn page_data_outcome(
    pre: WebSessionImpl,
    post: WebSessionImpl,
    path: Seq<Seq<char>>,
    query: Option<Seq<char>>,
    r: Result<PageData, DbError>,
) -> bool {
    let new = post.lookups().skip(pre.lookups().len() as int);
    let new_answers = post.answers().skip(pre.answers().len() as int);
    &&& post.wf()
    &&& safe_extension(pre.sent(), post.sent())
    &&& same_connection(pre, post)
    &&& answers_extend(pre.answers(), post.answers())
    &&& post.lookups().len() >= pre.lookups().len()
    &&& post.lookups().take(pre.lookups().len() as int) == pre.lookups()
    &&& r matches Err(e) ==> fails_with(pre.answers(), post.answers(), e)
        || (is_define_path(path) && (e is NotCharBoundary || e is IncompleteDefinition))
    &&& if !is_define_path(path) {
        &&& post.lookups() == pre.lookups()
        &&& post.written() == pre.written()
        &&& r is Ok ==> (r matches Ok(PageData::HomePage(_, _, _)))
        &&& r is Ok ==> post.sent() == pre.sent() + count_statements()
        &&& r is Err ==> exists|n: int| 1 <= n <= 3 && post.sent() == pre.sent()
            + #[trigger] count_statements().take(n)
        &&& r matches Ok(PageData::HomePage(defined, total, recent)) ==> new_answers == seq![
            Answer::Integer(total),
            Answer::Integer(defined),
            Answer::Texts(texts_view(recent@)),
        ]
    } else {
        let fields = query_fields(query);
        match last_value(fields, "word"@) {
            None => {
                &&& r matches Ok(PageData::Error(m)) && m@ == not_a_word_msg()
                &&& post.sent() == pre.sent()
                &&& post.lookups() == pre.lookups()
                &&& post.written() == pre.written()
            },
            Some(w) => {
                &&& new.len() > 0 ==> new[0].0 == w
                &&& !all_alphanumeric(w) ==> {
                    &&& r matches Ok(PageData::Error(m)) && m@ == not_a_word_msg()
                    &&& post.sent() == pre.sent()
                    &&& post.written() == pre.written()
                }
                &&& new.len() > 0 && new[0] == (w, false) ==> (r matches Ok(PageData::Error(m))
                    && m@ == not_a_word_msg())
                &&& r matches Err(DbError::IncompleteDefinition) ==> {
                    &&& post.answers().last() is Rows
                    &&& !definition_complete(byte_len(w), rows_map(post.answers().last()->Rows_0))
                }
                &&& match r {
                    Ok(PageData::Error(m)) => {
                        &&& m@ == not_a_word_msg()
                        &&& new == seq![(w, false)]
                        &&& post.written() == pre.written()
                        &&& post.sent() == pre.sent() || post.sent() == pre.sent().push(word_lookup_sql(w))
                    },
                    Ok(PageData::HomePage(_, _, _)) => false,
                    Ok(PageData::WordAndDef(w2, d, e)) => {
                        &&& w2@ == w
                        &&& new.len() > 0 && new[0] == (w, true)
                        &&& post.answers().last() is Rows
                        &&& definition_complete(byte_len(w), rows_map(post.answers().last()->Rows_0))
                        &&& d@ == definition_html(byte_len(w), rows_map(post.answers().last()->Rows_0))
                        &&& post.sent().len() > pre.sent().len()
                        &&& post.sent().last() == definition_sql(w)
                        &&& match last_value(fields, "definition"@) {
                            None => {
                                &&& e is None
                                &&& new.len() == 1
                                &&& post.written() == pre.written()
                                &&& post.sent() == pre.sent().push(word_lookup_sql(w)).push(definition_sql(w))
                            },
                            Some(dq) => {
                                let parts = split(dq, ' ');
                                let answers = new.skip(1);
                                ||| {
                                    &&& e is None
                                    &&& definition_accepted(w, parts, answers)
                                    &&& post.written() == pre.written().push((w, parts))
                                    &&& post.sent().len() >= pre.sent().len() + 2
                                    &&& exists|t: int| post.sent()[post.sent().len() - 2]
                                        == #[trigger] write_definition_sql(w, parts, t)
                                    &&& reads_only(pre.sent(), post.sent().take(post.sent().len() - 2))
                                    &&& post.clock_reads().len() == pre.clock_reads().len() + 1
                                    &&& post.clock_reads().drop_last() == pre.clock_reads()
                                    &&& post.sent()[post.sent().len() - 2] == write_definition_sql(
                                        w, parts, post.clock_reads().last() as int)
                                }
                                ||| {
                                    &&& e matches Some(m) && m@ == invalid_definition_msg()
                                    &&& definition_rejected(w, parts, answers)
                                    &&& post.written() == pre.written()
                                    &&& reads_only(pre.sent(), post.sent())
                                }
                            },
                        }
                    },
                    Err(e) => {
                        &&& e is NotCharBoundary ==> match last_value(fields, "definition"@) {
                            None => false,
                            Some(dq) => {
                                let parts = split(dq, ' ');
                                exists|i: int|
                                    0 <= i < new.skip(1).len() && #[trigger] new.skip(1)[i] == (parts[i], true)
                                        && parts[i].len() > 0 && char_at_byte(w, i) is None
                            },
                        }
                        &&& {
                            ||| post.written() == pre.written()
                            ||| match last_value(fields, "definition"@) {
                                None => false,
                                Some(dq) => post.written() == pre.written().push((w, split(dq, ' ')))
                                    && definition_accepted(w, split(dq, ' '), new.skip(1)),
                            }
                        }
                    },
                }
            },
        }
    }
}

/// The body of the response to a request for `path` (given without its
/// leading slash): the style sheet, or the page that building the page data
/// gave, or an error page telling the database's error.
pub open spec fn response_outcome(pre: WebSessionImpl, post: WebSessionImpl, path: Seq<char>, body: Seq<char>) -> bool {
    if "/"@ + path == "/main.css"@ {
        &&& body == MAIN_CSS@
        &&& same_connection(pre, post)
        &&& post.answers() == pre.answers()
        &&& post.sent() == pre.sent()
        &&& post.lookups() == pre.lookups()
        &&& post.written() == pre.written()
    } else {
        exists|r: Result<PageData, DbError>| {
            &&& #[trigger] page_data_outcome(pre, post, request_parts(path).0, request_parts(path).1, r)
            &&& body == match r {
                Ok(p) => page_html(p),
                Err(e) => error_page_html("database error: "@ + error_text(e)),
            }
        }
    }
}

/// The entry point of the grain's user interface.
#[derive(Clone, Copy)]
pub struct UiViewImpl;

/// A session: the connection to the dictionary's database, the answers it
/// got on words, and the definitions it handed to the database.
pub struct WebSessionImpl {
    db: Database,
    start: Ghost<nat>,
    lookups: Ghost<Seq<(Seq<char>, bool)>>,
    written: Ghost<Seq<(Seq<char>, Seq<Seq<char>>)>>,
    clock: Clock,
}

impl UiViewImpl {
    /// A new session of the web interface, on the grain's database.
    pub fn new_session(&self) -> (r: Result<WebSessionImpl, DbError>)
        ensures
            r matches Ok(s) ==> fresh_session(s, DATABASE_PATH@),
            r matches Err(e) ==> e is Sqlite,
    {
        WebSessionImpl::new()
    }
}

/// A session just opened on the database file at `path`, with the busy
/// timeout set to a second and nothing sent yet.
pub open spec fn fresh_session(s: WebSessionImpl, path: Seq<char>) -> bool {
    &&& s.wf()
    &&& s.path() == path
    &&& s.busy_timeout() == Some(1000usize)
    &&& s.sent() == Seq::<Seq<char>>::empty()
    &&& s.answers() == Seq::<Answer>::empty()
    &&& s.lookups() == Seq::<(Seq<char>, bool)>::empty()
    &&& s.written() == Seq::<(Seq<char>, Seq<Seq<char>>)>::empty()
}

/// The connection is the same file with the same busy timeout.
pub open spec fn same_connection(a: WebSessionImpl, b: WebSessionImpl) -> bool {
    a.path() == b.path() && a.busy_timeout() == b.busy_timeout()
}

/// `after` is `before` followed by more answers.
pub open spec fn answers_extend(before: Seq<Answer>, after: Seq<Answer>) -> bool {
    after.len() >= before.len() && after.take(before.len() as int) == before
}

/// The last answer is the failure `e`, and it was given after `before`.
pub open spec fn fails_with(before: Seq<Answer>, after: Seq<Answer>, e: DbError) -> bool {
    after.len() > before.len() && after.last() == Answer::Failed(e)
}

proof fn lemma_answers_refl(a: Seq<Answer>)
    ensures
        answers_extend(a, a),
{
    assert(a.take(a.len() as int) =~= a);
}

proof fn lemma_answers_push(a: Seq<Answer>, x: Answer)
    ensures
        answers_extend(a, a.push(x)),
{
    assert(a.push(x).take(a.len() as int) =~= a);
}

proof fn lemma_answers_trans(a: Seq<Answer>, b: Seq<Answer>, c: Seq<Answer>)
    requires
        answers_extend(a, b),
        answers_extend(b, c),
    ensures
        answers_extend(a, c),
{
    assert(c.take(a.len() as int) =~= a) by {
        assert forall|i: int| 0 <= i < a.len() implies c.take(a.len() as int)[i] == a[i] by {
            assert(c[i] == c.take(b.len() as int)[i]);
            assert(b[i] == b.take(a.len() as int)[i]);
        }
    }
}

/// What reading the stored definition of `word` gave, from the database's
/// answer: the rendering of the rows, or the errors.
pub open spec fn stored_definition_outcome(word: Seq<char>, a: Answer, r: Result<String, DbError>) -> bool {
    match r {
        Ok(s) => {
            &&& a is Rows
            &&& definition_complete(byte_len(word), rows_map(a->Rows_0))
            &&& s@ == definition_html(byte_len(word), rows_map(a->Rows_0))
        },
        Err(DbError::IncompleteDefinition) => {
            &&& a is Rows
            &&& !definition_complete(byte_len(word), rows_map(a->Rows_0))
        },
        Err(e) => a == Answer::Failed(e),
    }
}

/// The path of the database of the grain.
pub const DATABASE_PATH: &'static str = "/var/data.db";

impl WebSessionImpl {
    /// The statements sent to the database, in order.
    pub closed spec fn sent(&self) -> Seq<Seq<char>> {
        self.db.sent()
    }

    /// The answers of the database to the statements, in order.
    pub closed spec fn answers(&self) -> Seq<Answer> {
        self.db.answers()
    }

    /// The path of the database file.
    pub closed spec fn path(&self) -> Seq<char> {
        self.db.path()
    }

    /// The busy timeout, in milliseconds, last handed to SQLite.
    pub closed spec fn busy_timeout(&self) -> Option<usize> {
        self.db.busy_timeout()
    }

    /// The position, in the statements of the connection, of the first one
    /// the session sent.
    pub closed spec fn first_statement(&self) -> nat {
        self.start@
    }

    /// For each query that ran through its steps, its statement and what its
    /// steps and reads gave.
    pub closed spec fn traces(&self) -> Seq<(Seq<char>, Seq<Event>)> {
        self.db.traces()
    }

    /// The values read from the clock, in order.
    pub closed spec fn clock_reads(&self) -> Seq<i64> {
        self.clock.reads()
    }

    /// The words checked, each with the answer, in order.
    pub closed spec fn lookups(&self) -> Seq<(Seq<char>, bool)> {
        self.lookups@
    }

    /// The definitions written, each a word and its parts, in order.
    pub closed spec fn written(&self) -> Seq<(Seq<char>, Seq<Seq<char>>)> {
        self.written@
    }

    /// Only alphanumeric words are ever found in the word list, only acronyms
    /// of found words are ever written, and every statement the session sent
    /// reads, or writes one of the definitions written.
    pub open spec fn wf(&self) -> bool {
        &&& logs_consistent(self.lookups(), self.written())
        &&& statements_accounted(self.sent(), self.first_statement() as int, self.written(), self.clock_reads())
    }

    /// A session on an open database.
    pub fn from_database(db: Database) -> (s: WebSessionImpl)
        ensures
            s.wf(),
            s.sent() == db.sent(),
            s.answers() == db.answers(),
            s.path() == db.path(),
            s.busy_timeout() == db.busy_timeout(),
            s.first_statement() == db.sent().len(),
            s.lookups() == Seq::<(Seq<char>, bool)>::empty(),
            s.written() == Seq::<(Seq<char>, Seq<Seq<char>>)>::empty(),
    {
        proof {
            reveal(statements_accounted);
        }
        WebSessionImpl {
            start: Ghost(db.sent().len()),
            db,
            lookups: Ghost(Seq::empty()),
            written: Ghost(Seq::empty()),
            clock: Clock::new(),
        }
    }

    /// Opens a session on the database at `path`.
    pub fn open(path: &str) -> (r: Result<WebSessionImpl, DbError>)
        ensures
            r matches Ok(s) ==> fresh_session(s, path@),
            r matches Err(e) ==> e is Sqlite,
    {
        WebSessionImpl::from_opened(Database::open(path))
    }

    /// The session on the database that opening gave, with the busy timeout
    /// set to a second; or the error of the open, unchanged.
    pub fn from_opened(opened: Result<Database, DbError>) -> (r: Result<WebSessionImpl, DbError>)
        ensures
            r is Ok <==> opened is Ok,
            opened matches Ok(db) ==> r matches Ok(s) && {
                &&& s.wf()
                &&& s.path() == db.path()
                &&& s.busy_timeout() == Some(1000usize)
                &&& s.sent() == db.sent()
                &&& s.answers() == db.answers()
                &&& s.first_statement() == db.sent().len()
                &&& s.lookups() == Seq::<(Seq<char>, bool)>::empty()
                &&& s.written() == Seq::<(Seq<char>, Seq<Seq<char>>)>::empty()
            },
            opened matches Err(e) ==> r == Err::<WebSessionImpl, DbError>(e),
    {
        let mut db = match opened {
            Ok(db) => db,
            Err(e) => return Err(e),
        };
        // try for at least a second
        let _ = db.set_busy_timeout(1000);
        Ok(WebSessionImpl::from_database(db))
    }

    /// Opens a session on the grain's database.
    pub fn new() -> (r: Result<WebSessionImpl, DbError>)
        ensures
            r matches Ok(s) ==> fresh_session(s, DATABASE_PATH@),
            r matches Err(e) ==> e is Sqlite,
    {
        WebSessionImpl::open(DATABASE_PATH)
    }

    /// Whether `word` is in the word list. A word that is not alphanumeric is
    /// not looked up.
    pub fn is_word(&mut self, word: &str) -> (r: Result<bool, DbError>)
        requires
            old(self).wf(),
        ensures
            all_alphanumeric(word@) ==> (r matches Ok(b) ==> final(self).traces() == old(self).traces().push(
                (word_lookup_sql(word@), seq![if b { Event::Row } else { Event::Done }]),
            )),
            !all_alphanumeric(word@) ==> final(self).traces() == old(self).traces(),
            final(self).wf(),
            final(self).written() == old(self).written(),
            final(self).clock_reads() == old(self).clock_reads(),
            !all_alphanumeric(word@) ==> r == Ok::<bool, DbError>(false)
                && final(self).sent() == old(self).sent(),
            all_alphanumeric(word@) ==> final(self).sent() == old(self).sent().push(word_lookup_sql(word@)),
            r matches Ok(b) ==> final(self).lookups() == old(self).lookups().push((word@, b)),
            r matches Err(e) ==> final(self).lookups() == old(self).lookups() && e is Sqlite,
            safe_extension(old(self).sent(), final(self).sent()),
            reads_only(old(self).sent(), final(self).sent()),
            same_connection(*old(self), *final(self)),
            !all_alphanumeric(word@) ==> final(self).answers() == old(self).answers(),
            all_alphanumeric(word@) ==> final(self).answers() == old(self).answers().push(
                match r { Ok(b) => Answer::Found(b), Err(e) => Answer::Failed(e) },
            ),
    {
        proof {
            lemma_safe_extension_refl(self.sent());
            lemma_reads_only_refl(self.sent());
            if all_alphanumeric(word@) {
                assert(read_statement(word_lookup_sql(word@)));
                lemma_safe_push(self.sent(), word_lookup_sql(word@));
                lemma_reads_only_push(self.sent(), word_lookup_sql(word@));
                lemma_accounted_reads(self.sent(), self.sent().push(word_lookup_sql(word@)),
                    self.first_statement() as int, self.written(), self.clock_reads());
            }
        }
        if !is_alphanumeric_str(word) {
            proof {
                lemma_lookup_keeps_consistency(self.lookups@, self.written@, word@, false);
            }
            self.lookups = Ghost(self.lookups@.push((word@, false)));
            return Ok(false);
        }
        let q = word_lookup_query(word);
        let found = self.db.has_row(q.as_str());
        match found {
            Ok(b) => {
                proof {
                    lemma_lookup_keeps_consistency(self.lookups@, self.written@, word@, b);
                }
                self.lookups = Ghost(self.lookups@.push((word@, b)));
                Ok(b)
            },
            Err(e) => Err(e),
        }
    }

    /// Checks a definition of `word`: one part per byte of the word, each a
    /// word of the word list, non-empty and starting with the char at that
    /// offset of the word. The parts are looked up in order until one fails.
    #[verifier::spinoff_prover]
    pub fn validate_def(&mut self, word: &str, definition: &Vec<String>) -> (r: Result<bool, DbError>)
        requires
            old(self).wf(),
        ensures
            final(self).wf(),
            final(self).written() == old(self).written(),
            final(self).clock_reads() == old(self).clock_reads(),
            final(self).lookups().len() >= old(self).lookups().len(),
            final(self).lookups().take(old(self).lookups().len() as int) == old(self).lookups(),
            final(self).sent().len() >= old(self).sent().len(),
            final(self).sent().take(old(self).sent().len() as int) == old(self).sent(),
            ({
                let parts = strings_view(definition@);
                let answers = final(self).lookups().skip(old(self).lookups().len() as int);
                let queries = final(self).sent().skip(old(self).sent().len() as int);
                &&& answers.len() <= parts.len()
                &&& forall|j: int| 0 <= j < answers.len() ==> (#[trigger] answers[j]).0 == parts[j]
                &&& forall|k: int| 0 <= k < queries.len() ==> looks_up_a_part(parts, #[trigger] queries[k])
                &&& parts.len() != byte_len(word@) ==> r == Ok::<bool, DbError>(false) && answers.len() == 0
                    && queries.len() == 0
                &&& r == Ok::<bool, DbError>(true) ==> definition_accepted(word@, parts, answers)
                &&& r == Ok::<bool, DbError>(false) ==> definition_rejected(word@, parts, answers)
                &&& r matches Err(e) ==> e is Sqlite || (e is NotCharBoundary && exists|i: int|
                    0 <= i < answers.len() && #[trigger] answers[i] == (parts[i], true)
                        && parts[i].len() > 0 && char_at_byte(word@, i) is None)
            }),
            same_connection(*old(self), *final(self)),
            answers_extend(old(self).answers(), final(self).answers()),
            r matches Err(e) ==> (e is Sqlite ==> fails_with(old(self).answers(), final(self).answers(), e)),
    {
        let ghost parts = strings_view(definition@);
        let ghost l0 = self.lookups@;
        let ghost s0 = self.db.sent();
        proof {
            lemma_answers_refl(self.answers());
        }
        if definition.len() != word.as_bytes().len() {
            assert(self.lookups@.skip(l0.len() as int) =~= Seq::<(Seq<char>, bool)>::empty());
            assert(self.db.sent().skip(s0.len() as int) =~= Seq::<Seq<char>>::empty());
            assert(self.lookups@.take(l0.len() as int) =~= l0);
            assert(self.db.sent().take(s0.len() as int) =~= s0);
            return Ok(false);
        }
        let mut idx: usize = 0;
        while idx < definition.len()
            invariant
                idx <= definition.len(),
                definition.len() == byte_len(word@),
                parts == strings_view(definition@),
                self.clock_reads() == old(self).clock_reads(),
                self.wf(),
                self.written@ == old(self).written(),
                l0 == old(self).lookups(),
                s0 == old(self).sent(),
                self.lookups@.len() == l0.len() + idx,
                self.lookups@.take(l0.len() as int) == l0,
                forall|j: int| 0 <= j < idx ==> #[trigger] self.lookups@[l0.len() + j] == (parts[j], true)
                    && part_fits(word@, parts, j),
                self.db.sent().len() >= s0.len(),
                self.db.sent().take(s0.len() as int) == s0,
                forall|k: int| 0 <= k < self.db.sent().skip(s0.len() as int).len()
                    ==> looks_up_a_part(parts, #[trigger] self.db.sent().skip(s0.len() as int)[k]),
                same_connection(*old(self), *self),
                answers_extend(old(self).answers(), self.answers()),
            decreases definition.len() - idx,
        {
            let ghost l1 = self.lookups@;
            let ghost s1 = self.db.sent();
            let ghost a1 = self.answers();
            let found = self.is_word(definition[idx].as_str());
            proof {
                if all_alphanumeric(definition@[idx as int]@) {
                    lemma_answers_push(a1, self.answers().last());
                    assert(self.answers() == a1.push(self.answers().last()));
                } else {
                    lemma_answers_refl(a1);
                }
                lemma_answers_trans(old(self).answers(), a1, self.answers());
                assert(definition@[idx as int]@ == parts[idx as int]);
                let q1 = s1.skip(s0.len() as int);
                let q2 = self.db.sent().skip(s0.len() as int);
                assert forall|k: int| 0 <= k < q2.len() implies looks_up_a_part(parts, #[trigger] q2[k]) by {
                    if k < q1.len() {
                        assert(q2[k] == q1[k]);
                    } else {
                        assert(all_alphanumeric(parts[idx as int]));
                        assert(q2[k] == word_lookup_sql(parts[idx as int]));
                    }
                }
                assert(self.db.sent().take(s0.len() as int) =~= s0);
            }
            let ok = match found {
                Ok(b) => b,
                Err(e) => {
                    proof {
                        let answers = self.lookups@.skip(l0.len() as int);
                        assert forall|j: int| 0 <= j < answers.len() implies (#[trigger] answers[j]).0 == parts[j] by {
                            assert(answers[j] == self.lookups@[l0.len() + j]);
                        }
                    }
                    return Err(e);
                },
            };
            let ghost answers = self.lookups@.skip(l0.len() as int);
            proof {
                assert(self.lookups@.take(l0.len() as int) =~= l0);
                assert(answers[idx as int] == (parts[idx as int], ok));
                assert forall|j: int| 0 <= j < answers.len() implies (#[trigger] answers[j]).0 == parts[j] by {
                    assert(answers[j] == self.lookups@[l0.len() + j]);
                }
            }
            if !ok {
                return Ok(false);
            }
            let dv = chars_of(definition[idx].as_str());
            if dv.len() == 0 {
                return Ok(false);
            }
            match char_at_byte_offset(word, idx) {
                None => {
                    return Err(DbError::NotCharBoundary);
                },
                Some(c) => {
                    if dv[0] != c {
                        return Ok(false);
                    }
                },
            }
            proof {
                assert(self.lookups@ == l1.push((parts[idx as int], true)));
                assert(part_fits(word@, parts, idx as int));
                assert forall|j: int| 0 <= j < idx + 1 implies #[trigger] self.lookups@[l0.len() + j] == (
                    parts[j],
                    true,
                ) && part_fits(word@, parts, j) by {
                    if j < idx {
                        assert(self.lookups@[l0.len() + j] == l1[l0.len() + j]);
                    }
                }
            }
            idx = idx + 1;
        }
        proof {
            assert(parts.len() == definition.len());
            assert(idx == parts.len());
            let answers = self.lookups@.skip(l0.len() as int);
            assert forall|j: int| 0 <= j < answers.len() implies (#[trigger] answers[j]).0 == parts[j] by {
                assert(answers[j] == self.lookups@[l0.len() + j]);
            }
            assert forall|i: int| 0 <= i < parts.len() implies #[trigger] answers[i] == (parts[i], true) by {
                assert(answers[i] == self.lookups@[l0.len() + i]);
            }
            assert forall|i: int| 0 <= i < parts.len() implies part_fits(word@, parts, i) by {
                assert(self.lookups@[l0.len() + i] == (parts[i], true));
            }
        }
        Ok(true)
    }

    /// Replaces the stored definition of `word` by `definition` and records
    /// the time of the change in the log, in one transaction.
    fn write_def(&mut self, word: &str, definition: &Vec<String>) -> (r: Result<(), DbError>)
        requires
            old(self).wf(),
            written_ok(old(self).lookups(), (word@, strings_view(definition@))),
        ensures
            final(self).wf(),
            final(self).lookups() == old(self).lookups(),
            final(self).written() == old(self).written().push((word@, strings_view(definition@))),
            exists|t: i64| final(self).sent() == old(self).sent().push(
                write_definition_sql(word@, strings_view(definition@), t as int)),
            final(self).clock_reads().len() == old(self).clock_reads().len() + 1,
            final(self).clock_reads().drop_last() == old(self).clock_reads(),
            final(self).sent() == old(self).sent().push(
                write_definition_sql(word@, strings_view(definition@), final(self).clock_reads().last() as int)),
            r matches Err(e) ==> e is Sqlite,
            all_alphanumeric(word@) ==> safe_extension(old(self).sent(), final(self).sent()),
            same_connection(*old(self), *final(self)),
            final(self).answers() == old(self).answers().push(match r { Ok(_) => Answer::Done, Err(e) => Answer::Failed(e) }),
    {
        let time = now_seconds(&mut self.clock);
        let query = write_definition_query(word, definition, time);
        proof {
            let parts = strings_view(definition@);
            if all_alphanumeric(word@) {
                assert forall|i: int| 0 <= i < parts.len() implies all_alphanumeric(#[trigger] parts[i]) by {
                    assert(self.lookups().contains((parts[i], true)));
                    let j = choose|j: int| 0 <= j < self.lookups().len() && self.lookups()[j] == (parts[i], true);
                    assert(self.lookups()[j].1);
                }
                assert(safe_statement(write_definition_sql(word@, parts, time as int)));
                lemma_safe_push(self.sent(), write_definition_sql(word@, parts, time as int));
            }
        }
        proof {
            let w2 = self.written@.push((word@, strings_view(definition@)));
            assert forall|k: int| 0 <= k < w2.len() implies #[trigger] written_ok(self.lookups@, w2[k]) by {
                if k < self.written@.len() {
                    assert(w2[k] == self.written@[k]);
                }
            }
        }
        proof {
            lemma_accounted_write(self.sent(), self.first_statement() as int, self.written(),
                old(self).clock_reads(), word@, strings_view(definition@), time);
        }
        self.written = Ghost(self.written@.push((word@, strings_view(definition@))));
        let r = self.db.execute(query.as_str());
        assert(self.sent() == old(self).sent().push(write_definition_sql(word@, strings_view(definition@), time as int)));
        r
    }

    /// The HTML of the stored definition of `word`.
    pub fn get_def(&mut self, word: &str) -> (r: Result<String, DbError>)
        requires
            old(self).wf(),
        ensures
            final(self).answers().last() matches Answer::Rows(rows) ==> {
                let ev = final(self).traces().last().1;
                &&& final(self).traces() == old(self).traces().push((definition_sql(word@), ev))
                &&& stepped_to_end(ev) || rows.len() == usize::MAX
                &&& count_rows(ev) == rows.len()
                &&& integers_read(ev, 1) == rows.map_values(|row: (i64, Seq<char>)| row.0)
                &&& texts_read(ev, 2) == rows.map_values(|row: (i64, Seq<char>)| row.1)
            },
            all_alphanumeric(word@) ==> final(self).wf(),
            final(self).first_statement() == old(self).first_statement(),
            final(self).lookups() == old(self).lookups(),
            final(self).written() == old(self).written(),
            final(self).clock_reads() == old(self).clock_reads(),
            final(self).sent() == old(self).sent().push(definition_sql(word@)),
            all_alphanumeric(word@) ==> reads_only(old(self).sent(), final(self).sent()),
            r matches Err(e) ==> e is Sqlite || e is UnexpectedType || e is IncompleteDefinition,
            all_alphanumeric(word@) ==> safe_extension(old(self).sent(), final(self).sent()),
            same_connection(*old(self), *final(self)),
            final(self).answers() == old(self).answers().push(final(self).answers().last()),
            stored_definition_outcome(word@, final(self).answers().last(), r),
    {
        proof {
            if all_alphanumeric(word@) {
                assert(read_statement(definition_sql(word@)));
                lemma_safe_push(self.sent(), definition_sql(word@));
                lemma_reads_only_push(self.sent(), definition_sql(word@));
                lemma_accounted_reads(self.sent(), self.sent().push(definition_sql(word@)),
                    self.first_statement() as int, self.written(), self.clock_reads());
            }
        }
        let query = definition_query(word);
        let rows = match self.db.integer_text_rows(query.as_str(), 1, 2) {
            Ok(rows) => rows,
            Err(e) => return Err(e),
        };
        assert(int_text_rows_view(rows@) =~= rows_view(rows@));
        match render_definition(word.as_bytes().len(), &rows) {
            Some(s) => {
                assert(definition_html(byte_len(word@), rows_map(rows_view(rows@))) == s@);
                Ok(s)
            },
            None => Err(DbError::IncompleteDefinition),
        }
    }

    /// The number of defined words, the number of words, and the words
    /// defined last.
    pub fn count_defs(&mut self) -> (r: Result<(i64, i64, Vec<String>), DbError>)
        requires
            old(self).wf(),
        ensures
            r matches Ok((defined, total, recent)) ==> {
                let tr = final(self).traces();
                let n = old(self).traces().len() as int;
                &&& tr.len() == n + 3
                &&& tr.take(n) == old(self).traces()
                &&& tr[n] == (count_words_sql(), seq![Event::Row, Event::Integer(0, total)])
                &&& tr[n + 1] == (count_defined_sql(), seq![Event::Row, Event::Integer(0, defined)])
                &&& tr[n + 2].0 == recent_words_sql()
                &&& stepped_to_end(tr[n + 2].1) || recent.len() == usize::MAX
                &&& count_rows(tr[n + 2].1) == recent.len()
                &&& texts_read(tr[n + 2].1, 0) == texts_view(recent@)
            },
            final(self).wf(),
            final(self).lookups() == old(self).lookups(),
            final(self).written() == old(self).written(),
            final(self).clock_reads() == old(self).clock_reads(),
            r is Ok ==> final(self).sent() == old(self).sent() + count_statements(),
            r is Err ==> exists|n: int| 1 <= n <= 3 && final(self).sent() == old(self).sent()
                + #[trigger] count_statements().take(n),
            r matches Err(e) ==> e is Sqlite || e is NoRow || e is UnexpectedType,
            safe_extension(old(self).sent(), final(self).sent()),
            reads_only(old(self).sent(), final(self).sent()),
            same_connection(*old(self), *final(self)),
            r matches Ok((defined, total, recent)) ==> final(self).answers() == old(self).answers() + seq![
                Answer::Integer(total),
                Answer::Integer(defined),
                Answer::Texts(texts_view(recent@)),
            ],
            r is Err ==> answers_extend(old(self).answers(), final(self).answers())
                && final(self).answers().len() == old(self).answers().len()
                    + final(self).sent().len() - old(self).sent().len(),
            r matches Err(e) ==> fails_with(old(self).answers(), final(self).answers(), e),
    {
        let ghost qs = count_statements();
        let ghost a0 = self.answers();
        proof {
            let s0 = self.sent();
            assert forall|n: int| 0 <= n <= 3 implies #[trigger] safe_extension(s0, s0 + qs.take(n)) by {
                assert((s0 + qs.take(n)).take(s0.len() as int) =~= s0);
                assert forall|k: int| s0.len() <= k < (s0 + qs.take(n)).len()
                    implies safe_statement(#[trigger] (s0 + qs.take(n))[k]) by {
                    assert((s0 + qs.take(n))[k] == qs[k - s0.len()]);
                }
            }
            assert(qs.take(3) =~= qs);
            assert forall|n: int| 0 <= n <= 3 implies #[trigger] reads_only(s0, s0 + qs.take(n))
                && statements_accounted(s0 + qs.take(n), self.first_statement() as int, self.written(), self.clock_reads()) by {
                assert((s0 + qs.take(n)).take(s0.len() as int) =~= s0);
                assert forall|k: int| s0.len() <= k < (s0 + qs.take(n)).len()
                    implies read_statement(#[trigger] (s0 + qs.take(n))[k]) by {
                    assert((s0 + qs.take(n))[k] == qs[k - s0.len()]);
                }
                lemma_accounted_reads(s0, s0 + qs.take(n), self.first_statement() as int, self.written(), self.clock_reads());
            }
        }
        let num_words = match self.db.first_integer(count_words_query()) {
            Ok(n) => n,
            Err(e) => {
                assert(self.sent() == old(self).sent() + qs.take(1));
                assert(reads_only(old(self).sent(), old(self).sent() + qs.take(1)));
                proof { lemma_answers_push(a0, Answer::Failed(e)); }
                return Err(e);
            },
        };
        let ghost a1 = self.answers();
        let defined_words = match self.db.first_integer(count_defined_query()) {
            Ok(n) => n,
            Err(e) => {
                assert(self.sent() == old(self).sent() + qs.take(2));
                assert(reads_only(old(self).sent(), old(self).sent() + qs.take(2)));
                proof {
                    lemma_answers_push(a0, Answer::Integer(num_words));
                    lemma_answers_push(a1, Answer::Failed(e));
                    lemma_answers_trans(a0, a1, self.answers());
                }
                return Err(e);
            },
        };
        let ghost a2 = self.answers();
        let recent_words = match self.db.text_column(recent_words_query(), 0) {
            Ok(v) => v,
            Err(e) => {
                assert(self.sent() == old(self).sent() + qs.take(3));
                assert(reads_only(old(self).sent(), old(self).sent() + qs.take(3)));
                proof {
                    lemma_answers_push(a0, Answer::Integer(num_words));
                    lemma_answers_push(a1, Answer::Integer(defined_words));
                    lemma_answers_push(a2, Answer::Failed(e));
                    lemma_answers_trans(a0, a1, a2);
                    lemma_answers_trans(a0, a2, self.answers());
                }
                return Err(e);
            },
        };
        assert(self.sent() == old(self).sent() + qs);
        assert(reads_only(old(self).sent(), old(self).sent() + qs.take(3)));
        assert(self.answers() =~= a0 + seq![
            Answer::Integer(num_words),
            Answer::Integer(defined_words),
            Answer::Texts(texts_view(recent_words@)),
        ]);
        Ok((defined_words, num_words, recent_words))
    }

    /// The page for a request of `path` with `query`: the page of a word (and
    /// the handling of a submitted definition) for the path `define`, the
    /// home page otherwise.
    #[verifier::spinoff_prover]
    pub fn construct_page_data(&mut self, path: Vec<String>, query: Option<String>) -> (r: Result<PageData, DbError>)
        requires
            old(self).wf(),
        ensures
            page_data_outcome(*old(self), *final(self), strings_view(path@), opt_view(query), r),
    {
        let ghost pre = *self;
        let ghost pv = strings_view(path@);
        proof {
            lemma_answers_refl(self.answers());
            lemma_safe_extension_refl(self.sent());
        }
        if path.len() == 1 && str_eq(path[0].as_str(), "define") {
            assert(pv[0] == path@[0]@);
            let ghost fields = query_fields(opt_view(query));
            let pairs = query_pairs(&query);
            assert(pairs_view(pairs@) == fields);
            let word = match field_value(&pairs, "word") {
                None => {
                    assert(self.lookups().skip(pre.lookups().len() as int) =~= Seq::<(Seq<char>, bool)>::empty());
                    assert(self.lookups().take(pre.lookups().len() as int) =~= pre.lookups());
                    return Ok(PageData::Error(String::from_str("that's not a word")));
                },
                Some(w) => w,
            };
            let checked = self.is_word(word.as_str());
            proof {
                if all_alphanumeric(word@) {
                    lemma_answers_push(pre.answers(), self.answers().last());
                    assert(self.answers() == pre.answers().push(self.answers().last()));
                } else {
                    lemma_answers_refl(pre.answers());
                }
            }
            let known = match checked {
                Ok(b) => b,
                Err(e) => {
                    assert(self.lookups().take(pre.lookups().len() as int) =~= pre.lookups());
                    assert(fails_with(pre.answers(), self.answers(), e));
                    return Err(e);
                },
            };
            let ghost after_word = *self;
            proof {
                assert(self.lookups().take(pre.lookups().len() as int) =~= pre.lookups());
                assert(self.lookups().skip(pre.lookups().len() as int) =~= seq![(word@, known)]);
            }
            if !known {
                return Ok(PageData::Error(String::from_str("that's not a word")));
            }
            proof {
                let j = self.lookups().len() - 1;
                assert(self.lookups()[j] == (word@, true));
                assert(all_alphanumeric(word@));
            }
            match field_value(&pairs, "definition") {
                None => {
                    let ghost before_def = self.answers();
                    let got = self.get_def(word.as_str());
                    proof {
                        lemma_answers_push(before_def, self.answers().last());
                        lemma_answers_trans(pre.answers(), before_def, self.answers());
                    }
                    let d = match got {
                        Ok(d) => d,
                        Err(e) => {
                            proof {
                                lemma_safe_extension_trans(pre.sent(), after_word.sent(), self.sent());
                            }
                            return Err(e);
                        },
                    };
                    proof {
                        lemma_safe_extension_trans(pre.sent(), after_word.sent(), self.sent());
                    }
                    Ok(PageData::WordAndDef(word, d, None))
                },
                Some(dq) => {
                    let parts = split_spaces(dq.as_str());
                    let ghost ps = strings_view(parts@);
                    assert(ps == split(dq@, ' '));
                    let valid = self.validate_def(word.as_str(), &parts);
                    let ghost after_check = *self;
                    proof {
                        lemma_answers_trans(pre.answers(), after_word.answers(), self.answers());
                        lemma_part_lookups_safe(after_word.sent(), self.sent(), ps);
                        lemma_safe_extension_trans(pre.sent(), after_word.sent(), self.sent());
                        lemma_reads_only_trans(pre.sent(), after_word.sent(), self.sent());
                        assert(safe_extension(pre.sent(), self.sent()));
                        let l0 = pre.lookups();
                        let l1 = after_word.lookups();
                        let l2 = self.lookups();
                        assert(l2.take(l0.len() as int) =~= l0) by {
                            assert(l2.take(l1.len() as int) == l1);
                            assert forall|i: int| 0 <= i < l0.len() implies l2[i] == l0[i] by {
                                assert(l2[i] == l2.take(l1.len() as int)[i]);
                                assert(l1[i] == l1.take(l0.len() as int)[i]);
                            }
                        }
                        assert(l2.skip(l0.len() as int).skip(1) =~= l2.skip(l1.len() as int));
                        assert(l2.skip(l0.len() as int)[0] == l1[l0.len() as int]);
                    }
                    let ok = match valid {
                        Ok(b) => b,
                        Err(e) => return Err(e),
                    };
                    if ok {
                        proof {
                            let answers = self.lookups().skip(after_word.lookups().len() as int);
                            assert forall|i: int| 0 <= i < ps.len() implies self.lookups().contains((ps[i], true)) by {
                                assert(answers[i] == (ps[i], true));
                                assert(self.lookups()[after_word.lookups().len() + i] == answers[i]);
                            }
                        }
                        let ghost before_write = self.answers();
                        let w = self.write_def(word.as_str(), &parts);
                        let ghost after_write = *self;
                        proof {
                            lemma_answers_push(before_write, self.answers().last());
                            lemma_answers_trans(pre.answers(), before_write, self.answers());
                            lemma_safe_extension_trans(pre.sent(), after_check.sent(), self.sent());
                        }
                        match w {
                            Ok(()) => {},
                            Err(e) => return Err(e),
                        }
                        let ghost before_def = self.answers();
                        let got = self.get_def(word.as_str());
                        proof {
                            lemma_answers_push(before_def, self.answers().last());
                            lemma_answers_trans(pre.answers(), before_def, self.answers());
                        }
                        let d = match got {
                            Ok(d) => d,
                            Err(e) => {
                                proof {
                                    lemma_safe_extension_trans(pre.sent(), after_write.sent(), self.sent());
                                }
                                return Err(e);
                            },
                        };
                        proof {
                            lemma_safe_extension_trans(pre.sent(), after_write.sent(), self.sent());
                            assert(self.sent().take(self.sent().len() - 2) =~= after_check.sent());
                        }
                        Ok(PageData::WordAndDef(word, d, None))
                    } else {
                        let ghost before_def = self.answers();
                        let got = self.get_def(word.as_str());
                        proof {
                            lemma_answers_push(before_def, self.answers().last());
                            lemma_answers_trans(pre.answers(), before_def, self.answers());
                        }
                        let d = match got {
                            Ok(d) => d,
                            Err(e) => {
                                proof {
                                    lemma_safe_extension_trans(pre.sent(), after_check.sent(), self.sent());
                                }
                                return Err(e);
                            },
                        };
                        proof {
                            lemma_safe_extension_trans(pre.sent(), after_check.sent(), self.sent());
                            lemma_reads_only_trans(pre.sent(), after_check.sent(), self.sent());
                        }
                        Ok(PageData::WordAndDef(word, d, Some(String::from_str("invalid definition"))))
                    }
                },
            }
        } else {
            let (num_defined, total, recent) = match self.count_defs() {
                Ok(c) => c,
                Err(e) => {
                    assert(self.lookups().take(pre.lookups().len() as int) =~= pre.lookups());
                    return Err(e);
                },
            };
            assert(self.lookups().take(pre.lookups().len() as int) =~= pre.lookups());
            proof {
                let added = seq![
                    Answer::Integer(total),
                    Answer::Integer(num_defined),
                    Answer::Texts(texts_view(recent@)),
                ];
                assert(self.answers() == pre.answers() + added);
                assert(self.answers().skip(pre.answers().len() as int) =~= added);
                assert(self.answers().take(pre.answers().len() as int) =~= pre.answers());
            }
            Ok(PageData::HomePage(num_defined, total, recent))
        }
    }

    /// The body of the response to a GET request for `path`, given without its
    /// leading slash.
    pub fn respond(&mut self, path: &str) -> (body: String)
        requires
            old(self).wf(),
        ensures
            final(self).wf(),
            response_outcome(*old(self), *final(self), path@, body@),
    {
        let ghost pre = *self;
        let mut raw_path = String::new();
        raw_path.append("/");
        raw_path.append(path);
        if str_eq(raw_path.as_str(), "/main.css") {
            return String::from_str(MAIN_CSS);
        }
        let (segs, query) = parse_path(path);
        let r = self.construct_page_data(segs, query);
        let ghost rg = r;
        let page_data = match r {
            Ok(p) => p,
            Err(e) => {
                let mut msg = String::new();
                msg.append("database error: ");
                let d = e.describe();
                msg.append(d.as_str());
                PageData::Error(msg)
            },
        };
        let body = construct_html(page_data);
        assert(page_data_outcome(pre, *self, request_parts(path@).0, request_parts(path@).1, rg));
        body
    }
}

} // verus!
