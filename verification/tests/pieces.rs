use acronymy::fd::byte_count;
use acronymy::fd::cvt;
use acronymy::fd::FdStream;
use acronymy::html::construct_html;
use acronymy::html::define_form;
use acronymy::html::render_definition;
use acronymy::html::PageData;
use acronymy::request::field_value;
use acronymy::request::parse_path;
use acronymy::request::query_pairs;
use acronymy::sql::count_defined_query;
use acronymy::sql::count_words_query;
use acronymy::sql::create_table_queries;
use acronymy::sql::definition_query;
use acronymy::sql::insert_word_query;
use acronymy::sql::recent_words_query;
use acronymy::sql::word_lookup_query;
use acronymy::sql::write_definition_query;
use acronymy::store::DbError;
use acronymy::text::char_at_byte_offset;
use acronymy::text::decimal_string;
use acronymy::text::decimal_usize;
use acronymy::text::is_alphanumeric_str;
use acronymy::text::is_white_space_char;
use acronymy::text::split_spaces;
use acronymy::text::str_eq;
use acronymy::text::string_of;
use acronymy::text::trim_str;

#[test]
fn cvt_passes_values_and_signals_minus_one() {
    assert_eq!(cvt(5).unwrap(), 5);
    assert_eq!(cvt(0).unwrap(), 0);
    assert!(cvt(-1).is_err());
    assert_eq!(cvt(-2).unwrap(), -2);
    assert_eq!(byte_count(12).unwrap(), 12usize);
    assert!(byte_count(-1).is_err());
}

#[test]
fn fd_stream_keeps_its_descriptor() {
    let s = FdStream::new(3);
    assert_eq!(s.fd(), 3);
}

#[test]
fn decimal_notation() {
    assert_eq!(decimal_string(0), "0");
    assert_eq!(decimal_string(7), "7");
    assert_eq!(decimal_string(1725029869), "1725029869");
    assert_eq!(decimal_string(-42), "-42");
    assert_eq!(decimal_string(i64::MIN), "-9223372036854775808");
    assert_eq!(decimal_string(i64::MAX), "9223372036854775807");
    assert_eq!(decimal_usize(10), "10");
}

#[test]
fn splitting_on_spaces() {
    assert_eq!(split_spaces("cuddly adapted tiger"), vec!["cuddly", "adapted", "tiger"]);
    assert_eq!(split_spaces("a  b"), vec!["a", "", "b"]);
    assert_eq!(split_spaces(""), vec![""]);
    assert_eq!(split_spaces("a "), vec!["a", ""]);
}

#[test]
fn trimming_white_space() {
    assert_eq!(trim_str("  cat\t\n"), "cat");
    assert_eq!(trim_str("\u{3000}a b\u{a0}"), "a b");
    assert_eq!(trim_str("   "), "");
    assert!(is_white_space_char('\u{2028}'));
    assert!(!is_white_space_char('x'));
}

#[test]
fn alphanumeric_words() {
    assert!(is_alphanumeric_str("cat42"));
    assert!(is_alphanumeric_str("né"));
    assert!(is_alphanumeric_str(""));
    assert!(!is_alphanumeric_str("c t"));
    assert!(!is_alphanumeric_str("c\"t"));
}

#[test]
fn chars_at_byte_offsets() {
    assert_eq!(char_at_byte_offset("cat", 1), Some('a'));
    assert_eq!(char_at_byte_offset("cat", 3), None);
    assert_eq!(char_at_byte_offset("héllo", 1), Some('é'));
    assert_eq!(char_at_byte_offset("héllo", 2), None);
    assert_eq!(char_at_byte_offset("héllo", 3), Some('l'));
}

#[test]
fn string_helpers() {
    assert!(str_eq("define", "define"));
    assert!(!str_eq("define", "defined"));
    assert_eq!(string_of(&vec!['a', 'b']), "ab");
}

#[test]
fn statements() {
    assert_eq!(word_lookup_query("cat"), "SELECT * FROM Words WHERE Word = 'cat';");
    assert_eq!(definition_query("cat"), "SELECT * FROM Definitions WHERE Definee = 'cat';");
    assert_eq!(count_words_query(), "SELECT COUNT(*) FROM Words;");
    assert_eq!(count_defined_query(), "SELECT COUNT(*) FROM Definitions WHERE Idx = 0;");
    assert_eq!(recent_words_query(), "SELECT Word, Timestamp FROM Log ORDER BY Timestamp DESC LIMIT 5;");
    assert_eq!(insert_word_query("cat"), "INSERT INTO Words VALUES('cat');");
    assert_eq!(create_table_queries().len(), 3);
    let parts = vec!["cuddly".to_string(), "adapted".to_string(), "tiger".to_string()];
    assert_eq!(
        write_definition_query("cat", &parts, 1000),
        "BEGIN; DELETE FROM Definitions WHERE Definee ='cat'; \
INSERT INTO Definitions(Definee, Idx, Definer) VALUES\
('cat', 0, 'cuddly'),('cat', 1, 'adapted'),('cat', 2, 'tiger');\
DELETE FROM Log WHERE Word='cat';\
INSERT INTO Log(Word, Timestamp) VALUES('cat',1000);COMMIT;"
    );
}

#[test]
fn definition_rendering() {
    let rows = vec![(1i64, "adapted".to_string()), (0, "cuddly".to_string()), (2, "tiger".to_string())];
    assert_eq!(
        render_definition(3, &rows).unwrap(),
        "<div> <a href=\"define?word=cuddly\">cuddly</a>  <a href=\"define?word=adapted\">adapted</a>  <a href=\"define?word=tiger\">tiger</a> </div>"
    );
    // a later row for the same position wins
    let rows = vec![(0i64, "x".to_string()), (0, "y".to_string())];
    assert_eq!(render_definition(1, &rows).unwrap(), "<div> <a href=\"define?word=y\">y</a> </div>");
    // too few positions: no definition yet
    assert_eq!(render_definition(3, &rows).unwrap(), "<div>this word has no definition yet</div>");
    // as many positions as letters, but not 0..3
    let rows = vec![(0i64, "a".to_string()), (1, "b".to_string()), (5, "c".to_string())];
    assert!(render_definition(3, &rows).is_none());
    // a negative position is never one of the word's
    let rows = vec![(-1i64, "a".to_string())];
    assert!(render_definition(1, &rows).is_none());
}

#[test]
fn pages() {
    let html = construct_html(PageData::Error("boom".to_string()));
    assert!(html.contains("<body><div class=\"err\"> boom </div><form action=\"define\""));
    assert!(html.ends_with("<a href=\"/\">home</a></body></html>"));
    let html = construct_html(PageData::WordAndDef("cat".to_string(), "<div>D</div>".to_string(), Some("invalid definition".to_string())));
    assert!(html.contains("<div class=\"word\">cat</div><div>D</div><div class=\"err\">invalid definition</div><form action=\"define\" method=\"get\">"));
    assert!(html.contains("value=\"cat\" type=\"hidden\""));
    let html = construct_html(PageData::HomePage(2, 10, vec!["a".to_string(), "b".to_string()]));
    assert!(html.contains("<div>So far, we have defined 2 out of 10 words.</div><div>Recently modified words: <a href=\"/define?word=a\">a</a>, <a href=\"/define?word=b\">b</a>.</div>"));
    let form = define_form("cat");
    assert!(form.starts_with("<form action=\"define\" method=\"get\">\n"));
    assert!(form.ends_with("<button>submit definition</button></form>"));
}

#[test]
fn request_parts() {
    let (path, query) = parse_path("define?word=cat&definition=a+b");
    assert_eq!(path, vec!["define"]);
    assert_eq!(query.as_deref(), Some("word=cat&definition=a+b"));
    let (path, query) = parse_path("");
    assert_eq!(path, vec![""]);
    assert_eq!(query, None);
    let pairs = query_pairs(&Some("word=cat&definition=a+b%21&word=dog".to_string()));
    assert_eq!(pairs.len(), 3);
    assert_eq!(field_value(&pairs, "definition").as_deref(), Some("a b!"));
    assert_eq!(field_value(&pairs, "word").as_deref(), Some("dog"));
    assert_eq!(field_value(&pairs, "other"), None);
    assert!(query_pairs(&None).is_empty());
}

#[test]
fn error_descriptions() {
    let e = DbError::Sqlite {
        code: Some(1),
        message: Some("no such table: Words".to_string()),
        debug: "Error { code: Some(1), message: Some(\"no such table: Words\") }".to_string(),
    };
    assert_eq!(
        e.describe(),
        "Error { code: Some(1), message: Some(\"no such table: Words\") } (no such table: Words)"
    );
    let e = DbError::Sqlite { code: Some(5), message: None, debug: "Error { code: Some(5), message: None }".to_string() };
    assert_eq!(e.describe(), "Error { code: Some(5), message: None } ()");
    assert_eq!(DbError::NoRow.describe(), "NoRow (not an error)");
    assert_eq!(DbError::UnexpectedType.describe(), "UnexpectedType (not an error)");
    assert_eq!(DbError::IncompleteDefinition.describe(), "IncompleteDefinition (not an error)");
    assert_eq!(DbError::NotCharBoundary.describe(), "NotCharBoundary (not an error)");
}

#[test]
fn quotes_and_markup_are_not_alphanumeric() {
    for bad in ["a\"b", "a'b", "a;b", "a\\b", "a b", "a<b", "a>b", "a&b"] {
        assert!(!is_alphanumeric_str(bad), "{}", bad);
    }
    assert!(is_alphanumeric_str("Zebra09"));
}
