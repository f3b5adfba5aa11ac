use chm::statements::split_statements;

#[test]
fn splits_comment_and_empty_fragments_away() {
    let parts = split_statements("A; -- comment\nB;;");
    assert_eq!(parts, vec!["A".to_string(), "B".to_string()]);
}

#[test]
fn splits_a_single_statement_with_trailing_separator() {
    let parts = split_statements("CREATE TABLE t (x Int32) ENGINE=Memory;");
    assert_eq!(parts, vec!["CREATE TABLE t (x Int32) ENGINE=Memory".to_string()]);
}

#[test]
fn keeps_the_last_statement_without_trailing_separator() {
    let parts = split_statements("DROP TABLE t");
    assert_eq!(parts, vec!["DROP TABLE t".to_string()]);
}

#[test]
fn keeps_every_statement_of_a_multi_statement_body() {
    let parts = split_statements("CREATE TABLE a (x Int32) ENGINE=Memory;\nCREATE TABLE b (y Int32) ENGINE=Memory;\nINSERT INTO a VALUES (1)");
    assert_eq!(
        parts,
        vec![
            "CREATE TABLE a (x Int32) ENGINE=Memory".to_string(),
            "CREATE TABLE b (y Int32) ENGINE=Memory".to_string(),
            "INSERT INTO a VALUES (1)".to_string(),
        ]
    );
}

#[test]
fn a_comment_only_body_yields_nothing() {
    assert_eq!(split_statements("-- nothing to do\n"), Vec::<String>::new());
    assert_eq!(split_statements("-- a\n-- b"), Vec::<String>::new());
}

#[test]
fn an_empty_or_blank_body_yields_nothing() {
    assert_eq!(split_statements(""), Vec::<String>::new());
    assert_eq!(split_statements("  \n\t ; ;; \n"), Vec::<String>::new());
}

#[test]
fn a_comment_ends_at_the_line_end() {
    let parts = split_statements("A -- note\n B; C");
    assert_eq!(parts, vec!["A \n B".to_string(), "C".to_string()]);
}

#[test]
fn a_lone_dash_is_kept() {
    let parts = split_statements("SELECT 1 - 2;");
    assert_eq!(parts, vec!["SELECT 1 - 2".to_string()]);
}
