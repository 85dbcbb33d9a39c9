use rustydb::executor::execute_statement;
use rustydb::lexer::tokenize;
use rustydb::parser::{Parser, Statement};
use rustydb::session::{classify_line, classify_trimmed, LineKind};
use rustydb::storage::{Database, Row, StorageError, Table};

fn strings(items: &[&str]) -> Vec<String> {
    items.iter().map(|s| s.to_string()).collect()
}

fn students() -> Database {
    let mut db = Database::new();
    db.create_table("Students", strings(&["id", "name", "class"]));
    db
}

fn row_count(db: &Database, table: &str) -> usize {
    db.select_all(table).len()
}

#[test]
fn tokenize_quoted_and_punctuation() {
    assert_eq!(tokenize("'a b' , (c)"), strings(&["a b", ",", "(", "c", ")"]));
}

#[test]
fn tokenize_drops_semicolons_and_blanks() {
    assert_eq!(
        tokenize("SELECT *\tFROM t;\r\n"),
        strings(&["SELECT", "*", "FROM", "t"])
    );
    assert_eq!(tokenize(""), Vec::<String>::new());
    assert_eq!(tokenize("a;b"), strings(&["a", "b"]));
}

#[test]
fn tokenize_unclosed_quote_runs_to_end() {
    assert_eq!(tokenize("x 'open ended"), strings(&["x", "open ended"]));
    assert_eq!(tokenize("''"), strings(&[""]));
}

#[test]
fn paren_list_items() {
    let mut p = Parser::new(tokenize("(a, b, c)"));
    assert_eq!(p.parse_paren_list(), Ok(strings(&["a", "b", "c"])));
    let mut p = Parser::new(tokenize("()"));
    assert_eq!(p.parse_paren_list(), Ok(Vec::<String>::new()));
    let mut p = Parser::new(tokenize("(a, b"));
    assert_eq!(
        p.parse_paren_list(),
        Err("Syntax error: unclosed parenthesis".to_string())
    );
}

#[test]
fn paren_list_without_commas_is_accepted() {
    let mut p = Parser::new(tokenize("(a b)"));
    assert_eq!(p.parse_paren_list(), Ok(strings(&["a", "b"])));
}

#[test]
fn paren_list_needs_opening_paren() {
    let mut p = Parser::new(tokenize("a, b)"));
    assert_eq!(
        p.parse_paren_list(),
        Err("Syntax error: expected '(', found 'a'".to_string())
    );
}

#[test]
fn parse_select_with_where() {
    match Statement::parse("select name, class FROM Students where class = '5A';") {
        Ok(Statement::Select { table, columns, condition }) => {
            assert_eq!(table, "Students");
            assert_eq!(columns, strings(&["name", "class"]));
            let c = condition.unwrap();
            assert_eq!(c.column, "class");
            assert_eq!(c.value, "5A");
        }
        _ => panic!("expected a SELECT"),
    }
}

#[test]
fn parse_insert_defaults_to_star_columns() {
    match Statement::parse("INSERT INTO Students VALUES ('1','Ann','5A')") {
        Ok(Statement::Insert { table, columns, values }) => {
            assert_eq!(table, "Students");
            assert_eq!(columns, strings(&["*"]));
            assert_eq!(values, strings(&["1", "Ann", "5A"]));
        }
        _ => panic!("expected an INSERT"),
    }
}

#[test]
fn parse_insert_count_mismatch() {
    let r = Statement::parse("INSERT INTO Students (id, name) VALUES ('1')");
    assert_eq!(
        r.err(),
        Some("Column count (2) does not match value count (1)".to_string())
    );
    let r = Statement::parse("INSERT INTO t (a, b, c, d, e, f, g, h, i, j, k, l) VALUES (1)");
    assert_eq!(
        r.err(),
        Some("Column count (12) does not match value count (1)".to_string())
    );
}

#[test]
fn parse_errors() {
    assert_eq!(Statement::parse("  ;").err(), Some("Empty statement".to_string()));
    assert_eq!(
        Statement::parse("DROP TABLE x").err(),
        Some("Unknown statement: 'drop'".to_string())
    );
    assert_eq!(
        Statement::parse("SELECT a").err(),
        Some("Syntax error: expected 'from', found end of input".to_string())
    );
    assert_eq!(
        Statement::parse("SELECT a INTO t").err(),
        Some("Syntax error: expected 'from', found 'INTO'".to_string())
    );
    assert_eq!(
        Statement::parse("SELECT a FROM").err(),
        Some("Syntax error: expected table name, found end of input".to_string())
    );
    assert_eq!(
        Statement::parse("SELECT").err(),
        Some("Syntax error: expected column name, found end of input".to_string())
    );
    assert_eq!(
        Statement::parse("SELECT a FROM t WHERE b").err(),
        Some("Syntax error: expected '=', found end of input".to_string())
    );
    assert_eq!(
        Statement::parse("SELECT a FROM t WHERE b =").err(),
        Some("Syntax error: expected value, found end of input".to_string())
    );
    assert_eq!(
        Statement::parse("INSERT t VALUES (1)").err(),
        Some("Syntax error: expected 'into', found 't'".to_string())
    );
}

#[test]
fn parse_tokens_with_given_lower_case() {
    let r = Statement::parse_tokens(strings(&["SeLeCt", "*", "FrOm", "t"]), strings(&["select", "*", "from", "t"]));
    assert!(matches!(r, Ok(Statement::Select { .. })));
    let r = Statement::parse_tokens(strings(&["SELECT", "*", "FROM", "t"]), strings(&["SELECT", "*", "FROM", "t"]));
    assert_eq!(r.err(), Some("Unknown statement: 'SELECT'".to_string()));
}

#[test]
fn insert_then_select_all() {
    let mut db = students();
    assert_eq!(
        execute_statement("INSERT INTO Students VALUES ('1','Ann','5A')", &mut db),
        "OK: Inserted 1 row into 'Students'."
    );
    assert_eq!(
        execute_statement("SELECT * FROM Students", &mut db),
        "id | name | class\n-----------------\n1 | Ann | 5A\n(1 row)"
    );
}

#[test]
fn insert_arity_mismatch_leaves_table() {
    let mut db = students();
    execute_statement("INSERT INTO Students VALUES ('1','Ann','5A')", &mut db);
    let r = execute_statement("INSERT INTO Students VALUES ('2','Bo')", &mut db);
    assert!(r.starts_with("ERROR:"));
    assert_eq!(row_count(&db, "Students"), 1);
}

#[test]
fn select_missing_table() {
    let mut db = students();
    assert_eq!(
        execute_statement("SELECT * FROM Ghosts", &mut db),
        "ERROR: Table 'Ghosts' not found."
    );
    assert_eq!(
        execute_statement("INSERT INTO Students VALUES ('1','Ann','5A')", &mut db),
        "OK: Inserted 1 row into 'Students'."
    );
    assert_eq!(
        execute_statement("INSERT INTO Ghosts VALUES ('1')", &mut db),
        "ERROR: Insert into 'Ghosts' failed (wrong number of values or table not found)."
    );
}

#[test]
fn select_where_filters_in_order() {
    let mut db = students();
    execute_statement("INSERT INTO Students VALUES ('1','Ann','5A')", &mut db);
    execute_statement("INSERT INTO Students VALUES ('2','Bo','5B')", &mut db);
    execute_statement("INSERT INTO Students VALUES ('3','Cy','5A')", &mut db);
    execute_statement("INSERT INTO Students VALUES ('4','Di','5a')", &mut db);
    assert_eq!(
        execute_statement("SELECT name FROM Students WHERE class = '5A'", &mut db),
        "name\n----\nAnn\nCy\n(2 rows)"
    );
    let rows = db.select_where("Students", "class", "5A");
    let names: Vec<String> = rows.iter().map(|r| r.get_inner_vec()[1].clone()).collect();
    assert_eq!(names, strings(&["Ann", "Cy"]));
}

#[test]
fn select_projection_and_empty_results() {
    let mut db = students();
    assert_eq!(
        execute_statement("SELECT class, nope, id FROM Students", &mut db),
        "class | id\n----------\n(no rows)"
    );
    assert_eq!(
        execute_statement("SELECT nope FROM Students", &mut db),
        "ERROR: No valid columns selected."
    );
    assert_eq!(
        execute_statement("SELECT * FROM Students WHERE nope = 1", &mut db),
        "id | name | class\n-----------------\n(no rows)"
    );
    assert_eq!(
        execute_statement("FROM", &mut db),
        "ERROR: Unknown statement: 'from'"
    );
}

#[test]
fn many_rows_are_counted() {
    let mut db = Database::new();
    db.create_table("T", strings(&["v"]));
    for i in 0..12 {
        let r = execute_statement(&format!("INSERT INTO T (v) VALUES ({})", i), &mut db);
        assert_eq!(r, "OK: Inserted 1 row into 'T'.");
    }
    let out = execute_statement("SELECT * FROM T", &mut db);
    assert!(out.ends_with("\n11\n(12 rows)"));
}

#[test]
fn interleaved_inserts_are_all_kept() {
    let mut db = students();
    for i in 0..50 {
        let a = execute_statement(&format!("INSERT INTO Students VALUES ('a{}','A','1')", i), &mut db);
        let b = execute_statement(&format!("INSERT INTO Students VALUES ('b{}','B','2')", i), &mut db);
        assert!(a.starts_with("OK:") && b.starts_with("OK:"));
    }
    assert_eq!(row_count(&db, "Students"), 100);
    assert!(execute_statement("SELECT * FROM Students", &mut db).ends_with("(100 rows)"));
}

#[test]
fn storage_operations() {
    let mut db = Database::new();
    assert!(db.get_table("T").is_none());
    db.create_table("T", strings(&["a", "b"]));
    assert_eq!(db.insert_into_table("T", Row::new(strings(&["1", "2"]))), Ok(()));
    assert_eq!(
        db.insert_into_table("T", Row::new(strings(&["1"]))),
        Err(StorageError::ArityMismatch { expected: 2, got: 1 })
    );
    assert_eq!(
        db.insert_into_table("U", Row::new(strings(&["1"]))),
        Err(StorageError::TableNotFound)
    );
    assert_eq!(row_count(&db, "T"), 1);
    db.create_table("T", strings(&["x"]));
    assert_eq!(row_count(&db, "T"), 0);
    assert_eq!(db.get_table("T").unwrap().column_names(), &strings(&["x"]));
}

#[test]
fn table_insert_and_lookup() {
    let mut t = Table::new(strings(&["k", "v"]));
    assert_eq!(t.insert(Row::new(strings(&["a", "1"]))), Ok(()));
    assert_eq!(t.insert(Row::new(strings(&["b", "2"]))), Ok(()));
    assert_eq!(t.insert(Row::new(strings(&["c"]))), Err(StorageError::ArityMismatch { expected: 2, got: 1 }));
    assert_eq!(t.select_all().len(), 2);
    assert_eq!(t.select_where("k", "b").len(), 1);
    assert_eq!(t.select_where("k", "B").len(), 0);
    assert_eq!(t.select_where("missing", "b").len(), 0);
}

#[test]
fn keywords_are_case_insensitive() {
    let mut db = students();
    assert_eq!(
        execute_statement("insert into Students values (1, Ann, 5A)", &mut db),
        "OK: Inserted 1 row into 'Students'."
    );
    assert_eq!(
        execute_statement("SeLeCt id FrOm Students WhErE name = Ann", &mut db),
        "id\n--\n1\n(1 row)"
    );
    assert_eq!(
        execute_statement("SELECT id FROM students", &mut db),
        "ERROR: Table 'students' not found."
    );
}

#[test]
fn explicit_star_column_list_is_counted() {
    assert_eq!(
        Statement::parse("INSERT INTO t (*, a) VALUES (1)").err(),
        Some("Column count (2) does not match value count (1)".to_string())
    );
    assert_eq!(
        Statement::parse("INSERT INTO t (*) VALUES (1, 2)").err(),
        Some("Column count (1) does not match value count (2)".to_string())
    );
    assert_eq!(
        Statement::parse("INSERT INTO t () VALUES (1)").err(),
        Some("Column count (0) does not match value count (1)".to_string())
    );
    assert!(Statement::parse("INSERT INTO t () VALUES ()").is_ok());
}

#[test]
fn expect_keyword_lowers_both_sides() {
    let mut p = Parser::new(tokenize("from x"));
    assert_eq!(p.expect_keyword("FROM"), Ok(()));
    assert_eq!(p.peek(), Some("x"));
    let mut p = Parser::new(tokenize("INTO x"));
    assert_eq!(
        p.expect_keyword("FROM"),
        Err("Syntax error: expected 'FROM', found 'INTO'".to_string())
    );
}

#[test]
fn parse_where_moves_past_clause() {
    let mut p = Parser::new(tokenize("WHERE a = b rest"));
    let c = p.parse_where().unwrap().unwrap();
    assert_eq!((c.column.as_str(), c.value.as_str()), ("a", "b"));
    assert_eq!(p.peek(), Some("rest"));
    let mut p = Parser::new(tokenize("rest"));
    assert!(p.parse_where().unwrap().is_none());
    assert_eq!(p.peek(), Some("rest"));
}

#[test]
fn classify_lines() {
    assert_eq!(classify_line("   \t"), LineKind::Skip);
    assert_eq!(classify_line(""), LineKind::Skip);
    assert_eq!(classify_line("  QuIt \r"), LineKind::Quit);
    assert_eq!(classify_line("EXIT"), LineKind::Quit);
    assert_eq!(
        classify_line("  SELECT * FROM t  "),
        LineKind::Execute("SELECT * FROM t".to_string())
    );
    assert_eq!(classify_line("quit now"), LineKind::Execute("quit now".to_string()));
    assert_eq!(classify_line("\u{3000}x\u{a0}"), LineKind::Execute("x".to_string()));
}

#[test]
fn classify_trimmed_lines() {
    assert_eq!(classify_trimmed("", ""), LineKind::Skip);
    assert_eq!(classify_trimmed("QUIT", "quit"), LineKind::Quit);
    assert_eq!(classify_trimmed("Exit", "exit"), LineKind::Quit);
    assert_eq!(classify_trimmed("QUIT", "QUIT"), LineKind::Execute("QUIT".to_string()));
}
