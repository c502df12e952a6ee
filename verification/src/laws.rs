//! Properties of the dictionary that hold across its operations.

use vstd::prelude::*;
use crate::text::all_alphanumeric;
use crate::text::alphanumeric_char;
use crate::text::byte_len;
use crate::text::char_at_byte;
use crate::text::char_width;
use crate::text::split;
use crate::text::trim;
use crate::text::trim_end;
use crate::text::trim_start;
use crate::text::is_white_space;
use crate::text::lemma_split_nonempty;
use crate::session::WebSessionImpl;
use crate::session::is_acronym;
use crate::session::part_fits;
use crate::session::definition_accepted;
use crate::session::definition_rejected;
use crate::session::written_ok;
use crate::session::read_statement;
use crate::session::statements_accounted;
use crate::session::write_number;
use crate::sql::write_definition_sql;

verus! {

/// Every definition a session has written spells its word, one part per
/// letter, and every part is a word that the word list held when it was
/// checked, hence alphanumeric.
pub proof fn stored_definitions_are_acronyms(s: WebSessionImpl)
    requires
        s.wf(),
    ensures
        forall|k: int| 0 <= k < s.written().len() ==> {
            let (word, parts) = #[trigger] s.written()[k];
            &&& is_acronym(word, parts)
            &&& forall|i: int| 0 <= i < parts.len() ==> s.lookups().contains((parts[i], true))
                && all_alphanumeric(parts[i])
        },
{
    assert forall|k: int| 0 <= k < s.written().len() implies {
        let (word, parts) = #[trigger] s.written()[k];
        &&& is_acronym(word, parts)
        &&& forall|i: int| 0 <= i < parts.len() ==> s.lookups().contains((parts[i], true))
            && all_alphanumeric(parts[i])
    } by {
        assert(written_ok(s.lookups(), s.written()[k]));
        let (word, parts) = s.written()[k];
        assert forall|i: int| 0 <= i < parts.len() implies s.lookups().contains((parts[i], true))
            && all_alphanumeric(parts[i]) by {
            let j = choose|j: int| 0 <= j < s.lookups().len() && s.lookups()[j] == (parts[i], true);
            assert(s.lookups()[j].1);
        }
    }
}

/// Every statement a session has sent to SQLite only reads, or writes one of
/// the definitions it has written, logged at the time that the clock read
/// for that write gave: the `j`-th write of a definition carries the `j`-th
/// clock reading. Every such definition spells its word, one part per letter,
/// with parts that the word list held when they were checked.
pub proof fn sent_definitions_are_acronyms(s: WebSessionImpl)
    requires
        s.wf(),
    ensures
        s.written().len() == s.clock_reads().len(),
        forall|k: int| s.first_statement() <= k < s.sent().len() ==> {
            ||| read_statement(#[trigger] s.sent()[k])
            ||| exists|j: int| {
                &&& 0 <= j < s.written().len()
                &&& s.sent()[k] == write_definition_sql(s.written()[j].0, s.written()[j].1, s.clock_reads()[j] as int)
                &&& is_acronym(#[trigger] s.written()[j].0, s.written()[j].1)
                &&& forall|i: int| 0 <= i < s.written()[j].1.len()
                    ==> s.lookups().contains((s.written()[j].1[i], true)) && all_alphanumeric(s.written()[j].1[i])
            }
        },
{
    reveal(statements_accounted);
    stored_definitions_are_acronyms(s);
    assert forall|k: int| s.first_statement() <= k < s.sent().len() implies {
        ||| read_statement(#[trigger] s.sent()[k])
        ||| exists|j: int| {
            &&& 0 <= j < s.written().len()
            &&& s.sent()[k] == write_definition_sql(s.written()[j].0, s.written()[j].1, s.clock_reads()[j] as int)
            &&& is_acronym(#[trigger] s.written()[j].0, s.written()[j].1)
            &&& forall|i: int| 0 <= i < s.written()[j].1.len()
                ==> s.lookups().contains((s.written()[j].1[i], true)) && all_alphanumeric(s.written()[j].1[i])
        }
    } by {
        if !read_statement(s.sent()[k]) {
            let j = choose|j: int| 0 <= j < s.written().len() && j < s.clock_reads().len()
                && s.sent()[k] == #[trigger] write_number(s.written(), s.clock_reads(), j);
            assert(s.written()[j] == s.written()[j]);
        }
    }
}

/// An alphanumeric word holds no quote, apostrophe, semicolon, backslash,
/// space or markup char (`<`, `>`, `&`): none of them reaches a statement or
/// a page through a word that passed the check.
pub proof fn alphanumeric_words_are_plain(w: Seq<char>)
    requires
        all_alphanumeric(w),
    ensures
        forall|i: int| 0 <= i < w.len() ==> {
            &&& #[trigger] w[i] != '"'
            &&& w[i] != '\''
            &&& w[i] != ';'
            &&& w[i] != '\\'
            &&& w[i] != ' '
            &&& w[i] != '<'
            &&& w[i] != '>'
            &&& w[i] != '&'
        },
{
    assert forall|i: int| 0 <= i < w.len() implies {
        &&& #[trigger] w[i] != '"'
        &&& w[i] != '\''
        &&& w[i] != ';'
        &&& w[i] != '\\'
        &&& w[i] != ' '
        &&& w[i] != '<'
        &&& w[i] != '>'
        &&& w[i] != '&'
    } by {
        assert(alphanumeric_char(w[i]));
    }
}

/// Given the answers of the word list, a definition cannot be both accepted
/// and rejected: the answers decide the outcome of a check.
pub proof fn accepted_excludes_rejected(word: Seq<char>, parts: Seq<Seq<char>>, answers: Seq<(Seq<char>, bool)>)
    ensures
        !(definition_accepted(word, parts, answers) && definition_rejected(word, parts, answers)),
{
    if definition_accepted(word, parts, answers) && parts.len() == byte_len(word) {
        assert forall|i: int| 0 <= i < parts.len() && i < answers.len() && (#[trigger] answers[i]).0 == parts[i]
            implies answers[i].1 && part_fits(word, parts, i) by {
            assert(answers[i] == (parts[i], true));
        }
    }
}

/// The text holds only ASCII chars.
pub open spec fn is_ascii_text(s: Seq<char>) -> bool {
    forall|i: int| 0 <= i < s.len() ==> (#[trigger] s[i] as u32) < 128
}

proof fn lemma_ascii_offsets(w: Seq<char>)
    requires
        is_ascii_text(w),
    ensures
        byte_len(w) == w.len(),
        forall|i: int| 0 <= i < w.len() ==> #[trigger] char_at_byte(w, i) == Some(w[i]),
    decreases w.len(),
{
    if w.len() > 0 {
        let t = w.drop_first();
        assert(is_ascii_text(t)) by {
            assert forall|i: int| 0 <= i < t.len() implies (#[trigger] t[i] as u32) < 128 by {
                assert(t[i] == w[i + 1]);
            }
        }
        lemma_ascii_offsets(t);
        assert((w[0] as u32) < 128);
        assert(char_width(w[0]) == 1);
        assert forall|i: int| 0 <= i < w.len() implies #[trigger] char_at_byte(w, i) == Some(w[i]) by {
            if i > 0 {
                assert(char_at_byte(w, i) == char_at_byte(t, i - 1));
                assert(t[i - 1] == w[i]);
            }
        }
    }
}

/// For a word of ASCII letters, as in "cat" defined as "cuddly adapted
/// tiger", a definition is an acronym exactly when it has one part per
/// letter and each part starts with its letter.
pub proof fn ascii_acronyms(word: Seq<char>, parts: Seq<Seq<char>>)
    requires
        is_ascii_text(word),
    ensures
        is_acronym(word, parts) <==> (parts.len() == word.len() && forall|i: int|
            0 <= i < parts.len() ==> (#[trigger] parts[i]).len() > 0 && parts[i][0] == word[i]),
{
    lemma_ascii_offsets(word);
    if parts.len() == word.len() {
        assert forall|i: int| 0 <= i < parts.len() implies (part_fits(word, parts, i) <==> (
            (#[trigger] parts[i]).len() > 0 && parts[i][0] == word[i])) by {
            assert(char_at_byte(word, i) == Some(word[i]));
        }
    }
}


/// The pieces joined back with the separator between them.
pub open spec fn join(parts: Seq<Seq<char>>, sep: char) -> Seq<char>
    decreases parts.len(),
{
    if parts.len() == 0 {
        Seq::<char>::empty()
    } else if parts.len() == 1 {
        parts[0]
    } else {
        join(parts.drop_last(), sep) + seq![sep] + parts.last()
    }
}

/// Splitting a definition at its spaces loses nothing and leaves no space
/// inside a part: the parts joined with spaces give back the text, and no
/// part holds the separator.
pub proof fn split_then_join(s: Seq<char>, sep: char)
    ensures
        join(split(s, sep), sep) == s,
        forall|i: int, j: int| 0 <= i < split(s, sep).len() && 0 <= j < split(s, sep)[i].len()
            ==> #[trigger] split(s, sep)[i][j] != sep,
    decreases s.len(),
{
    if s.len() == 0 {
        assert(join(split(s, sep), sep) =~= s);
    } else {
        let t = s.drop_last();
        let c = s.last();
        split_then_join(t, sep);
        lemma_split_nonempty(t, sep);
        let p = split(t, sep);
        let n = p.len();
        if c == sep {
            let q = p.push(Seq::<char>::empty());
            assert(q.drop_last() =~= p);
            assert(join(q, sep) =~= s);
            assert forall|i: int, j: int| 0 <= i < q.len() && 0 <= j < q[i].len() implies #[trigger] q[i][j] != sep by {
                assert(i < n);
                assert(q[i] == p[i]);
            }
        } else {
            let q = p.update(n - 1, p.last().push(c));
            if n == 1 {
                assert(q[0] == p[0].push(c));
                assert(join(p, sep) == p[0]);
                assert(join(q, sep) =~= s);
            } else {
                assert(q.drop_last() =~= p.drop_last());
                assert(join(p, sep) == join(p.drop_last(), sep) + seq![sep] + p.last());
                assert(q.last() == p.last().push(c));
                assert(join(q, sep) == join(q.drop_last(), sep) + seq![sep] + q.last());
                assert(join(q, sep) =~= (join(p.drop_last(), sep) + seq![sep] + p.last()).push(c));
                assert(s =~= t.push(c));
                assert(join(q, sep) =~= s);
            }
            assert forall|i: int, j: int| 0 <= i < q.len() && 0 <= j < q[i].len() implies #[trigger] q[i][j] != sep by {
                if i < n - 1 {
                    assert(q[i] == p[i]);
                } else if j < p.last().len() {
                    assert(q[i][j] == p[n - 1][j]);
                }
            }
        }
    }
}

/// The chars that Unicode gives the `White_Space` property (PropList.txt),
/// which `char::is_whitespace` and `str::trim` go by: tab, line feed,
/// vertical tab, form feed, carriage return, space, next line, no-break
/// space, Ogham space mark, the spaces from en quad to hair space, line and
/// paragraph separators, narrow no-break space, medium mathematical space
/// and ideographic space.
pub open spec fn unicode_white_space(c: char) -> bool {
    ||| c == '\t' || c == '\n' || c == '\u{0B}' || c == '\u{0C}' || c == '\r' || c == ' '
    ||| c == '\u{85}' || c == '\u{A0}' || c == '\u{1680}'
    ||| c == '\u{2000}' || c == '\u{2001}' || c == '\u{2002}' || c == '\u{2003}' || c == '\u{2004}'
    ||| c == '\u{2005}' || c == '\u{2006}' || c == '\u{2007}' || c == '\u{2008}' || c == '\u{2009}'
    ||| c == '\u{200A}' || c == '\u{2028}' || c == '\u{2029}' || c == '\u{202F}' || c == '\u{205F}'
    ||| c == '\u{3000}'
}

proof fn lemma_white_space_agrees(c: char)
    ensures
        is_white_space(c) <==> unicode_white_space(c),
{
}

proof fn lemma_trim_end_white_tail(s: Seq<char>, t: Seq<char>)
    requires
        forall|i: int| 0 <= i < t.len() ==> is_white_space(#[trigger] t[i]),
    ensures
        trim_end(s + t) == trim_end(s),
    decreases t.len(),
{
    if t.len() > 0 {
        assert((s + t).last() == t.last());
        assert((s + t).drop_last() =~= s + t.drop_last());
        lemma_trim_end_white_tail(s, t.drop_last());
    } else {
        assert(s + t =~= s);
    }
}

proof fn lemma_trim_start_white_head(t: Seq<char>, s: Seq<char>)
    requires
        forall|i: int| 0 <= i < t.len() ==> is_white_space(#[trigger] t[i]),
    ensures
        trim_start(t + s) == trim_start(s),
    decreases t.len(),
{
    if t.len() > 0 {
        assert((t + s)[0] == t[0]);
        assert((t + s).drop_first() =~= t.drop_first() + s);
        lemma_trim_start_white_head(t.drop_first(), s);
    } else {
        assert(t + s =~= s);
    }
}

proof fn lemma_trim_start_append(s: Seq<char>, t: Seq<char>)
    ensures
        trim_start(s).len() > 0 ==> trim_start(s + t) == trim_start(s) + t,
        trim_start(s).len() == 0 ==> trim_start(s + t) == trim_start(t),
    decreases s.len(),
{
    if s.len() == 0 {
        assert(s + t =~= t);
    } else if is_white_space(s[0]) {
        assert((s + t)[0] == s[0]);
        assert((s + t).drop_first() =~= s.drop_first() + t);
        lemma_trim_start_append(s.drop_first(), t);
    } else {
        assert((s + t)[0] == s[0]);
    }
}

/// `str::trim` takes off exactly the white space: white space added at
/// either end of a text (a line ending such as "\r\n" among it) is taken
/// off again, and a single char that is not white space is kept.
pub proof fn trim_takes_off_white_space(s: Seq<char>, t: Seq<char>, c: char)
    requires
        forall|i: int| 0 <= i < t.len() ==> unicode_white_space(#[trigger] t[i]),
    ensures
        trim(s + t) == trim(s),
        trim(t + s) == trim(s),
        !unicode_white_space(c) ==> trim(seq![c]) == seq![c],
        unicode_white_space(c) ==> trim(seq![c]) == Seq::<char>::empty(),
{
    assert forall|i: int| 0 <= i < t.len() implies is_white_space(#[trigger] t[i]) by {
        lemma_white_space_agrees(t[i]);
    }
    lemma_white_space_agrees(c);
    lemma_trim_start_white_head(t, s);
    lemma_trim_start_append(s, t);
    if trim_start(s).len() > 0 {
        lemma_trim_end_white_tail(trim_start(s), t);
    } else {
        lemma_trim_start_white_head(t, Seq::<char>::empty());
        assert(t + Seq::<char>::empty() =~= t);
        assert(trim_start(s) =~= Seq::<char>::empty());
    }
    let one = seq![c];
    if unicode_white_space(c) {
        assert(one[0] == c);
        assert(one.drop_first() =~= Seq::<char>::empty());
        assert(trim_start(Seq::<char>::empty()) == Seq::<char>::empty());
        assert(trim_start(one) == trim_start(one.drop_first()));
        assert(trim_end(Seq::<char>::empty()) == Seq::<char>::empty());
    } else {
        assert(trim_start(one) == one);
        assert(one.last() == c);
    }
}

} // verus!
