//! The HTML pages of the dictionary.

use vstd::prelude::*;
use crate::text::decimal;
use crate::text::decimal_string;
use std::collections::HashMap;

verus! {

/// The style sheet served at `/main.css`.
pub const MAIN_CSS: &'static str =
    "body { font-family: Helvetica, Sans, Arial;
            font-size: medium;
             margin-left: auto;
             margin-right: auto;
             text-align: center;
     }
     div {
          padding-bottom: 10pt;
     }
    .word {
        text-align: center;
        font-size: 500%;
     }
     .err {
       font-size: 90%;
       color: #AA0000;
     }
     .title {
       text-align: center;
       font-size:500%;
     }
     ";

/// The head of every page.
pub const HEADER: &'static str =
  r#"<head><title> acronymy </title><link rel="stylesheet" type="text/css" href="main.css" >
 <meta http-equiv="Content-Type" content="text/html;charset=utf-8" >
  </head>"#;

/// The form that looks a word up.
pub const LOOKUP_FORM: &'static str =
      r#"<form action="define" method="get">
          <input name="word" maxlength="100"/><button>find word</button></form>"#;

/// The link back to the home page.
pub const HOME_LINK: &'static str = "<a href=\"/\">home</a>";

/// The text of the definition form before the word.
pub const DEFINE_FORM_START: &'static str = "<form action=\"define\" method=\"get\">
               <input name=\"word\" value=\"";

/// The text of the definition form after the word.
pub const DEFINE_FORM_END: &'static str = "\" type=\"hidden\"/>
               <input name=\"definition\" maxlength=\"2000\"/>
                   <button>submit definition</button></form>";


/// The form that submits a definition of `word`.
pub open spec fn define_form_html(word: Seq<char>) -> Seq<char> {
    DEFINE_FORM_START@ + word + DEFINE_FORM_END@
}

pub fn define_form(word: &str) -> (r: String)
    ensures
        r@ == define_form_html(word@),
{
    let mut r = String::new();
    r.append(DEFINE_FORM_START);
    r.append(word);
    r.append(DEFINE_FORM_END);
    r
}

/// What a page shows.
#[derive(Debug)]
pub enum PageData {
    /// An error message.
    Error(String),
    /// A word, the HTML of its definition, and a message on a rejected definition.
    WordAndDef(String, String, Option<String>),
    /// The number of defined words, the number of words, and the words defined last.
    HomePage(i64, i64, Vec<String>),
}

/// A link to the page of a recently defined word.
pub open spec fn recent_link_html(word: Seq<char>) -> Seq<char> {
    "<a href=\"/define?word="@ + word + "\">"@ + word + "</a>"@
}

/// The links to the first `n` words, separated by commas.
pub open spec fn recent_links_html(words: Seq<Seq<char>>, n: int) -> Seq<char>
    decreases n,
{
    if n <= 0 {
        Seq::<char>::empty()
    } else if n == 1 {
        recent_link_html(words[0])
    } else {
        recent_links_html(words, n - 1) + ", "@ + recent_link_html(words[n - 1])
    }
}

/// The words as the home page lists them.
pub open spec fn recent_words_html(words: Seq<Seq<char>>) -> Seq<char> {
    if words.len() > 0 {
        "<div>Recently modified words: "@ + recent_links_html(words, words.len() as int) + ".</div>"@
    } else {
        Seq::<char>::empty()
    }
}

/// The body of the page of an error message.
pub open spec fn error_body_html(msg: Seq<char>) -> Seq<char> {
    "<div class=\"err\"> "@ + msg + " </div>"@ + LOOKUP_FORM@ + HOME_LINK@
}

/// The whole HTML document of the page of an error message.
pub open spec fn error_page_html(msg: Seq<char>) -> Seq<char> {
    "<html>"@ + HEADER@ + "<body>"@ + error_body_html(msg) + "</body></html>"@
}

/// The body of a page.
pub open spec fn page_body_html(page: PageData) -> Seq<char> {
    match page {
        PageData::Error(e) => error_body_html(e@),
        PageData::WordAndDef(word, def_div, err) => {
            "<div class=\"word\">"@ + word@ + "</div>"@ + def_div@ + match err {
                None => Seq::<char>::empty(),
                Some(e) => "<div class=\"err\">"@ + e@ + "</div>"@,
            } + define_form_html(word@) + HOME_LINK@
        },
        PageData::HomePage(num_defined, total, recent) => {
            "<div class=\"title\">Acronymy</div>"@
                + "<div>A user-editable, acronym-only dictionary.</div>"@
                + "<div>So far, we have defined "@ + decimal(num_defined as int) + " out of "@
                + decimal(total as int) + " words.</div>"@
                + recent_words_html(recent@.map_values(|w: String| w@))
                + LOOKUP_FORM@
        },
    }
}

/// The whole HTML document of a page.
pub open spec fn page_html(page: PageData) -> Seq<char> {
    "<html>"@ + HEADER@ + "<body>"@ + page_body_html(page) + "</body></html>"@
}

fn recent_words_part(recent: &Vec<String>) -> (r: String)
    ensures
        r@ == recent_words_html(recent@.map_values(|w: String| w@)),
{
    let ghost ws = recent@.map_values(|w: String| w@);
    let mut r = String::new();
    if recent.len() > 0 {
        r.append("<div>Recently modified words: ");
        let ghost head = r@;
        let mut idx: usize = 0;
        while idx < recent.len()
            invariant
                idx <= recent.len(),
                ws == recent@.map_values(|w: String| w@),
                r@ == head + recent_links_html(ws, idx as int),
            decreases recent.len() - idx,
        {
            if idx != 0 {
                r.append(", ");
            }
            r.append("<a href=\"/define?word=");
            r.append(recent[idx].as_str());
            r.append("\">");
            r.append(recent[idx].as_str());
            r.append("</a>");
            proof {
                assert(ws[idx as int] == recent@[idx as int]@);
                if idx == 0 {
                    assert(recent_links_html(ws, 0) =~= Seq::<char>::empty());
                }
                assert(r@ =~= head + recent_links_html(ws, idx + 1));
            }
            idx = idx + 1;
        }
        r.append(".</div>");
    }
    assert(r@ =~= recent_words_html(ws));
    r
}

/// Renders a page as an HTML document.
pub fn construct_html(page_data: PageData) -> (r: String)
    ensures
        r@ == page_html(page_data),
{
    let ghost page = page_data;
    let mut result = String::new();
    result.append("<html>");
    result.append(HEADER);
    result.append("<body>");
    let ghost head = result@;
    match page_data {
        PageData::Error(e) => {
            result.append("<div class=\"err\"> ");
            result.append(e.as_str());
            result.append(" </div>");
            result.append(LOOKUP_FORM);
            result.append(HOME_LINK);
        },
        PageData::WordAndDef(word, def_div, err) => {
            result.append("<div class=\"word\">");
            result.append(word.as_str());
            result.append("</div>");
            result.append(def_div.as_str());
            match err {
                None => {},
                Some(e) => {
                    result.append("<div class=\"err\">");
                    result.append(e.as_str());
                    result.append("</div>");
                },
            }
            let form = define_form(word.as_str());
            result.append(form.as_str());
            result.append(HOME_LINK);
        },
        PageData::HomePage(num_defined, total, recent) => {
            result.append("<div class=\"title\">Acronymy</div>");
            result.append("<div>A user-editable, acronym-only dictionary.</div>");
            result.append("<div>So far, we have defined ");
            let a = decimal_string(num_defined);
            result.append(a.as_str());
            result.append(" out of ");
            let b = decimal_string(total);
            result.append(b.as_str());
            result.append(" words.</div>");
            let rw = recent_words_part(&recent);
            result.append(rw.as_str());
            result.append(LOOKUP_FORM);
        },
    }
    result.append("</body></html>");
    assert(result@ =~= page_html(page));
    result
}


/// The stored parts of a definition, by position: where rows repeat a
/// position, the later row wins.
pub open spec fn rows_map(rows: Seq<(i64, Seq<char>)>) -> Map<int, Seq<char>>
    decreases rows.len(),
{
    if rows.len() == 0 {
        Map::empty()
    } else {
        rows_map(rows.drop_last()).insert(rows.last().0 as int, rows.last().1)
    }
}

/// The view of rows read from the definition table.
pub open spec fn rows_view(rows: Seq<(i64, String)>) -> Seq<(i64, Seq<char>)> {
    rows.map_values(|r: (i64, String)| (r.0, r.1@))
}

/// The rows hold a definition of a word of `n` bytes: exactly `n` positions.
pub open spec fn has_definition(n: nat, m: Map<int, Seq<char>>) -> bool {
    m.dom().len() == n
}

/// A definition of `n` positions can be rendered: each of them has a part.
pub open spec fn definition_complete(n: nat, m: Map<int, Seq<char>>) -> bool {
    has_definition(n, m) ==> forall|i: int| 0 <= i < n ==> #[trigger] m.dom().contains(i)
}

/// The link to the page of one part of a definition.
pub open spec fn part_link_html(part: Seq<char>) -> Seq<char> {
    " <a href=\"define?word="@ + part + "\">"@ + part + "</a> "@
}

/// The links to the parts at positions `0..k`.
pub open spec fn part_links_html(m: Map<int, Seq<char>>, k: int) -> Seq<char>
    decreases k,
{
    if k <= 0 {
        Seq::<char>::empty()
    } else {
        part_links_html(m, k - 1) + part_link_html(m[k - 1])
    }
}

/// What the page of a word of `n` bytes shows of its stored definition.
pub open spec fn definition_html(n: nat, m: Map<int, Seq<char>>) -> Seq<char> {
    if !has_definition(n, m) {
        "<div>this word has no definition yet</div>"@
    } else {
        "<div>"@ + part_links_html(m, n as int) + "</div>"@
    }
}

proof fn lemma_rows_map_finite(rows: Seq<(i64, Seq<char>)>)
    ensures
        rows_map(rows).dom().finite(),
    decreases rows.len(),
{
    if rows.len() > 0 {
        lemma_rows_map_finite(rows.drop_last());
    }
}

/// The table maps exactly the positions of `full`, each to its part, and
/// every position of `full` is a 64-bit integer.
pub open spec fn table_matches(table: Map<i64, String>, full: Map<int, Seq<char>>) -> bool {
    &&& forall|k: i64| #[trigger] table.contains_key(k) <==> full.dom().contains(k as int)
    &&& forall|k: i64| #[trigger] table.contains_key(k) ==> table[k]@ == full[k as int]
    &&& forall|key: int| #[trigger] full.dom().contains(key) ==> i64::MIN <= key <= i64::MAX
    &&& table.dom().finite()
    &&& full.dom().finite()
    &&& table.dom().len() == full.dom().len()
}

/// Renders the stored definition of a word of `word_len` bytes from the
/// rows (position, part) of the definition table. `None` where the rows hold
/// as many positions as the word has bytes but miss one of `0..word_len`.
#[verifier::spinoff_prover]
pub fn render_definition(word_len: usize, rows: &Vec<(i64, String)>) -> (r: Option<String>)
    ensures
        r is None <==> !definition_complete(word_len as nat, rows_map(rows_view(rows@))),
        r matches Some(s) ==> s@ == definition_html(word_len as nat, rows_map(rows_view(rows@))),
{
    let ghost rv = rows_view(rows@);
    // each position with its part, the later row winning
    let mut table: HashMap<i64, String> = HashMap::new();
    proof {
        assert(rv.take(0) =~= Seq::<(i64, Seq<char>)>::empty());
        assert(rows_map(rv.take(0)).dom() =~= Set::<int>::empty());
        assert(table@.dom() =~= Set::<i64>::empty());
    }
    let mut i: usize = 0;
    while i < rows.len()
        invariant
            i <= rows.len(),
            rv == rows_view(rows@),
            table_matches(table@, rows_map(rv.take(i as int))),
        decreases rows.len() - i,
    {
        let ghost before = rows_map(rv.take(i as int));
        let ghost old_t = table@;
        proof {
            assert(rv.take(i + 1).drop_last() =~= rv.take(i as int));
            assert(rv.take(i + 1).last() == (rows@[i as int].0, rows@[i as int].1@));
            lemma_rows_map_finite(rv.take(i + 1));
        }
        let key = rows[i].0;
        let part = rows[i].1.clone();
        table.insert(key, part);
        proof {
            let after = rows_map(rv.take(i + 1));
            assert(after == before.insert(key as int, rows@[i as int].1@));
            assert(table@ == old_t.insert(key, part));
            if old_t.contains_key(key) {
                assert(after.dom() =~= before.dom());
                assert(table@.dom() =~= old_t.dom());
            } else {
                assert(!before.dom().contains(key as int));
                assert(after.dom() =~= before.dom().insert(key as int));
                assert(table@.dom() =~= old_t.dom().insert(key));
            }
            assert forall|k: i64| #[trigger] table@.contains_key(k) <==> after.dom().contains(k as int) by {
                if k != key {
                    assert(old_t.contains_key(k) <==> before.dom().contains(k as int));
                }
            }
            assert forall|k: i64| #[trigger] table@.contains_key(k) implies table@[k]@ == after[k as int] by {
                if k != key {
                    assert(old_t.contains_key(k));
                }
            }
            assert forall|k2: int| #[trigger] after.dom().contains(k2) implies i64::MIN <= k2 <= i64::MAX by {
                if k2 != key as int {
                    assert(before.dom().contains(k2));
                }
            }
        }
        i = i + 1;
    }
    let ghost full = rows_map(rv);
    assert(rv.take(rows.len() as int) =~= rv);
    if table.len() != word_len {
        let mut s = String::new();
        s.append("<div>this word has no definition yet</div>");
        return Some(s);
    }
    let mut s = String::new();
    s.append("<div>");
    let ghost head = s@;
    let mut idx: usize = 0;
    while idx < word_len
        invariant
            idx <= word_len,
            full == rows_map(rv),
            rv == rows_view(rows@),
            full.dom().len() == word_len,
            table_matches(table@, full),
            forall|t: int| 0 <= t < idx ==> #[trigger] full.dom().contains(t),
            s@ == head + part_links_html(full, idx as int),
        decreases word_len - idx,
    {
        if idx as u64 > i64::MAX as u64 {
            // no stored position is this large
            assert(idx > i64::MAX);
            assert(!full.dom().contains(idx as int));
            return None;
        }
        let key = idx as i64;
        match table.get(&key) {
            None => {
                assert(!full.dom().contains(idx as int));
                return None;
            },
            Some(part) => {
                s.append(" <a href=\"define?word=");
                s.append(part.as_str());
                s.append("\">");
                s.append(part.as_str());
                s.append("</a> ");
                proof {
                    assert(table@.contains_key(key) && table@[key] == *part);
                    assert(full.dom().contains(idx as int));
                    assert(full[idx as int] == part@);
                    assert(s@ =~= head + part_links_html(full, idx + 1));
                }
            },
        }
        idx = idx + 1;
    }
    s.append("</div>");
    Some(s)
}

} // verus!
