use acronymy::initdb::add_word;
use acronymy::initdb::create_tables;
use acronymy::initdb::open_db;
use acronymy::initdb::write_word_list;
use acronymy::session::WebSessionImpl;
use acronymy::html::PageData;
use acronymy::link::link_open;
use acronymy::store::Database;
use acronymy::store::DbError;

fn dictionary(words: &[&str]) -> WebSessionImpl {
    let mut db = open_db(":memory:").unwrap();
    let lines: Vec<String> = words.iter().map(|w| w.to_string()).collect();
    assert_eq!(write_word_list(&mut db, &lines).unwrap(), None);
    WebSessionImpl::from_database(db)
}

#[test]
fn readme_cat_is_cuddly_adapted_tiger() {
    let mut s = dictionary(&["cat", "cuddly", "adapted", "tiger", "dog"]);
    let body = s.respond("define?word=cat&definition=cuddly+adapted+tiger");
    assert!(body.contains("<div class=\"word\">cat</div>"));
    assert!(body.contains(
        "<div> <a href=\"define?word=cuddly\">cuddly</a>  <a href=\"define?word=adapted\">adapted</a>  <a href=\"define?word=tiger\">tiger</a> </div>"
    ));
    assert!(!body.contains("invalid definition"));
}

#[test]
fn readme_dog_is_dutiful_obedient_guardian() {
    let mut s = dictionary(&["dog", "dutiful", "obedient", "guardian"]);
    let body = s.respond("define?word=dog&definition=dutiful%20obedient%20guardian");
    assert!(body.contains("<a href=\"define?word=guardian\">guardian</a>"));
    // the stored definition is shown again on a later visit
    let again = s.respond("define?word=dog");
    assert!(again.contains("<a href=\"define?word=obedient\">obedient</a>"));
    assert!(!again.contains("this word has no definition yet"));
}

#[test]
fn definition_with_wrong_letters_is_rejected() {
    let mut s = dictionary(&["cat", "cuddly", "adapted", "tiger"]);
    let body = s.respond("define?word=cat&definition=tiger+adapted+cuddly");
    assert!(body.contains("<div class=\"err\">invalid definition</div>"));
    assert!(body.contains("<div>this word has no definition yet</div>"));
}

#[test]
fn definition_of_wrong_length_is_rejected() {
    let mut s = dictionary(&["cat", "cuddly", "adapted", "tiger"]);
    let body = s.respond("define?word=cat&definition=cuddly+adapted");
    assert!(body.contains("invalid definition"));
}

#[test]
fn definition_with_unknown_word_is_rejected() {
    let mut s = dictionary(&["cat", "cuddly", "adapted"]);
    let body = s.respond("define?word=cat&definition=cuddly+adapted+tabby");
    assert!(body.contains("invalid definition"));
}

#[test]
fn unknown_word_page() {
    let mut s = dictionary(&["cat"]);
    let body = s.respond("define?word=zebra");
    assert!(body.contains("<div class=\"err\"> that's not a word </div>"));
    let body = s.respond("define");
    assert!(body.contains("that's not a word"));
    let body = s.respond("define?word=c%20t");
    assert!(body.contains("that's not a word"));
}

#[test]
fn home_page_counts_and_recent_words() {
    let mut s = dictionary(&["cat", "cuddly", "adapted", "tiger", "dog"]);
    let home = s.respond("");
    assert!(home.contains("<div>So far, we have defined 0 out of 5 words.</div>"));
    assert!(!home.contains("Recently modified words"));
    s.respond("define?word=cat&definition=cuddly+adapted+tiger");
    let home = s.respond("");
    assert!(home.contains("<div>So far, we have defined 1 out of 5 words.</div>"));
    assert!(home.contains("<div>Recently modified words: <a href=\"/define?word=cat\">cat</a>.</div>"));
    assert!(home.starts_with("<html><head><title> acronymy </title>"));
    assert!(home.ends_with("</form></body></html>"));
}

#[test]
fn style_sheet() {
    let mut s = dictionary(&["cat"]);
    let css = s.respond("main.css");
    assert!(css.starts_with("body { font-family: Helvetica, Sans, Arial;"));
    assert_eq!(css, acronymy::html::MAIN_CSS);
}

#[test]
fn redefinition_replaces_the_old_definition() {
    let mut s = dictionary(&["cat", "cuddly", "adapted", "tiger", "cozy", "active", "tabby"]);
    s.respond("define?word=cat&definition=cuddly+adapted+tiger");
    let body = s.respond("define?word=cat&definition=cozy+active+tabby");
    assert!(body.contains("<a href=\"define?word=tabby\">tabby</a>"));
    assert!(!body.contains("<a href=\"define?word=tiger\">tiger</a>"));
}

#[test]
fn database_errors_are_reported_on_the_page() {
    // a database without the tables
    let db = open_db(":memory:").unwrap();
    let mut s = WebSessionImpl::from_database(db);
    let body = s.respond("");
    assert!(body.contains(
        "<div class=\"err\"> database error: Error { code: Some(1), message: Some(\"no such table: Words\") } (no such table: Words)"
    ));
}

#[test]
fn construct_page_data_routes() {
    let mut s = dictionary(&["cat", "cuddly", "adapted", "tiger"]);
    match s.construct_page_data(vec!["define".to_string()], Some("word=cat".to_string())).unwrap() {
        PageData::WordAndDef(w, d, e) => {
            assert_eq!(w, "cat");
            assert_eq!(d, "<div>this word has no definition yet</div>");
            assert!(e.is_none());
        }
        other => panic!("unexpected page {:?}", other),
    }
    match s.construct_page_data(vec!["other".to_string()], None).unwrap() {
        PageData::HomePage(defined, total, recent) => {
            assert_eq!((defined, total), (0, 4));
            assert!(recent.is_empty());
        }
        other => panic!("unexpected page {:?}", other),
    }
}

#[test]
fn is_word_and_validate_def() {
    let mut s = dictionary(&["cat", "cuddly", "adapted", "tiger"]);
    assert_eq!(s.is_word("cat").unwrap(), true);
    assert_eq!(s.is_word("dog").unwrap(), false);
    assert_eq!(s.is_word("c\"t").unwrap(), false);
    let parts: Vec<String> = vec!["cuddly".to_string(), "adapted".to_string(), "tiger".to_string()];
    assert_eq!(s.validate_def("cat", &parts).unwrap(), true);
    let parts: Vec<String> = vec!["cuddly".to_string(), "".to_string(), "tiger".to_string()];
    assert_eq!(s.validate_def("cat", &parts).unwrap(), false);
    assert_eq!(s.get_def("cat").unwrap(), "<div>this word has no definition yet</div>");
    let (defined, total, recent) = s.count_defs().unwrap();
    assert_eq!((defined, total, recent.len()), (0, 4, 0));
}

#[test]
fn non_ascii_word_offsets() {
    // "né" has three bytes; byte offset 2 lies inside 'é'
    let mut s = dictionary(&["né", "nice", "eagle", "x"]);
    let parts: Vec<String> = vec!["nice".to_string(), "eagle".to_string()];
    assert_eq!(s.validate_def("né", &parts).unwrap(), false);
    let parts: Vec<String> = vec!["nice".to_string(), "x".to_string(), "x".to_string()];
    assert_eq!(s.validate_def("né", &parts).unwrap(), false);
}

#[test]
fn word_list_stops_at_a_line_that_is_not_alphanumeric() {
    let mut db = open_db(":memory:").unwrap();
    let lines: Vec<String> = vec!["  cat ".to_string(), "dog\t".to_string(), "bad word".to_string(), "owl".to_string()];
    assert_eq!(write_word_list(&mut db, &lines).unwrap(), Some(2));
    let mut s = WebSessionImpl::from_database(db);
    assert_eq!(s.is_word("cat").unwrap(), true);
    assert_eq!(s.is_word("dog").unwrap(), true);
    assert_eq!(s.is_word("owl").unwrap(), false);
}

#[test]
fn check_reaching_inside_a_character_is_an_error() {
    let mut s = dictionary(&["né", "nice", "éclair", "x"]);
    let parts: Vec<String> = vec!["nice".to_string(), "éclair".to_string(), "x".to_string()];
    match s.validate_def("né", &parts) {
        Err(DbError::NotCharBoundary) => {}
        other => panic!("unexpected {:?}", other),
    }
}

#[test]
fn error_variants_of_the_database() {
    let mut db = open_db(":memory:").unwrap();
    match db.first_integer("SELECT 1 WHERE 0;") {
        Err(DbError::NoRow) => {}
        other => panic!("unexpected {:?}", other),
    }
    match db.text_column("SELECT 1;", 0) {
        Err(DbError::UnexpectedType) => {}
        other => panic!("unexpected {:?}", other),
    }
    assert_eq!(db.first_integer("SELECT 7;").unwrap(), 7);
    assert_eq!(db.text_column("SELECT 'a' UNION ALL SELECT 'b';", 0).unwrap(), vec!["a", "b"]);
    match db.execute("NOT SQL") {
        Err(DbError::Sqlite { .. }) => {}
        other => panic!("unexpected {:?}", other),
    }
}

#[test]
fn definition_missing_a_position_is_an_error() {
    let mut db = open_db(":memory:").unwrap();
    let lines: Vec<String> = vec!["cat".to_string()];
    assert_eq!(write_word_list(&mut db, &lines).unwrap(), None);
    db.execute("INSERT INTO Definitions(Definee, Idx, Definer) VALUES(\"cat\", 0, \"a\"),(\"cat\", 1, \"b\"),(\"cat\", 5, \"c\");")
        .unwrap();
    let mut s = WebSessionImpl::from_database(db);
    match s.get_def("cat") {
        Err(DbError::IncompleteDefinition) => {}
        other => panic!("unexpected {:?}", other),
    }
    let body = s.respond("define?word=cat");
    assert!(body.contains("database error: IncompleteDefinition (not an error)"));
}

#[test]
fn stored_definition_of_wrong_type_is_an_error() {
    let mut db = open_db(":memory:").unwrap();
    let lines: Vec<String> = vec!["cat".to_string()];
    assert_eq!(write_word_list(&mut db, &lines).unwrap(), None);
    db.execute("INSERT INTO Definitions(Definee, Idx, Definer) VALUES(\"cat\", \"zero\", \"a\");").unwrap();
    let mut s = WebSessionImpl::from_database(db);
    match s.get_def("cat") {
        Err(DbError::UnexpectedType) => {}
        other => panic!("unexpected {:?}", other),
    }
}


#[test]
fn tables_then_words_one_at_a_time() {
    let mut db = open_db(":memory:").unwrap();
    create_tables(&mut db).unwrap();
    assert_eq!(add_word(&mut db, "  cat \n").unwrap(), true);
    assert_eq!(add_word(&mut db, "not a word").unwrap(), false);
    assert_eq!(add_word(&mut db, "tiger").unwrap(), true);
    assert_eq!(db.first_integer("SELECT COUNT(*) FROM Words;").unwrap(), 2);
    assert_eq!(db.text_column("SELECT Word FROM Words;", 0).unwrap(), vec!["cat", "tiger"]);
    // the tables exist already
    match create_tables(&mut db) {
        Err(DbError::Sqlite { .. }) => {}
        other => panic!("unexpected {:?}", other),
    }
}

#[test]
fn seeding_stops_at_the_first_failed_statement() {
    let mut db = open_db(":memory:").unwrap();
    create_tables(&mut db).unwrap();
    let lines: Vec<String> = vec!["cat".to_string(), "tiger".to_string()];
    match write_word_list(&mut db, &lines) {
        Err(DbError::Sqlite { .. }) => {}
        other => panic!("unexpected {:?}", other),
    }
    // the first CREATE failed, so no word was added
    assert_eq!(db.first_integer("SELECT COUNT(*) FROM Words;").unwrap(), 0);
}

#[test]
fn a_rejected_definition_writes_nothing() {
    let mut s = dictionary(&["cat", "cuddly", "adapted", "tiger", "dog"]);
    let body = s.respond("define?word=cat&definition=dog+adapted+tiger");
    assert!(body.contains("invalid definition"));
    assert!(body.contains("this word has no definition yet"));
    let home = s.respond("");
    assert!(home.contains("So far, we have defined 0 out of 5 words."));
}

#[test]
fn words_that_name_columns_are_defined_too() {
    // "word" and "definer" are also column names of the tables
    let mut s = dictionary(&["word", "wicked", "owl", "rat", "dog", "definer", "goat"]);
    let body = s.respond("define?word=word&definition=wicked+owl+rat+dog");
    assert!(body.contains(
        "<div> <a href=\"define?word=wicked\">wicked</a>  <a href=\"define?word=owl\">owl</a>  <a href=\"define?word=rat\">rat</a>  <a href=\"define?word=dog\">dog</a> </div>"
    ));
    let body = s.respond("define?word=dog&definition=definer+owl+goat");
    assert!(body.contains("<a href=\"define?word=definer\">definer</a>"));
}

#[test]
fn opening_gives_the_database_or_the_error() {
    let db = Database::from_opened(link_open(":memory:")).unwrap();
    let s = WebSessionImpl::from_opened(Ok(db));
    assert!(s.is_ok());
    let e = DbError::Sqlite { code: Some(14), message: Some("unable to open database file".to_string()), debug: String::new() };
    match WebSessionImpl::from_opened(Err(e)) {
        Err(DbError::Sqlite { code: Some(14), .. }) => {}
        Err(other) => panic!("unexpected {:?}", other),
        Ok(_) => panic!("a session without a database"),
    }
    // the directory of the file does not exist
    assert!(Database::from_opened(link_open("/no/such/directory/data.db")).is_err());
}
