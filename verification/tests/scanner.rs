use migration_ledger::sql::{defined_tables, tokenize, Token, TokenKind};

fn tables(statement: &str) -> Vec<String> {
    defined_tables(statement.as_bytes())
        .into_iter()
        .map(|name| String::from_utf8(name).unwrap())
        .collect()
}

fn pieces(statement: &str) -> Vec<(TokenKind, String)> {
    tokenize(statement.as_bytes())
        .into_iter()
        .map(|token| (token.kind, statement[token.start..token.end].to_string()))
        .collect()
}

fn word(text: &str) -> (TokenKind, String) {
    (TokenKind::Word, text.to_string())
}

fn symbol(text: &str) -> (TokenKind, String) {
    (TokenKind::Symbol, text.to_string())
}

fn quoted(text: &str) -> (TokenKind, String) {
    (TokenKind::Quoted, text.to_string())
}

fn literal(text: &str) -> (TokenKind, String) {
    (TokenKind::Literal, text.to_string())
}

#[test]
fn empty_statement_has_no_pieces() {
    assert_eq!(tokenize(b""), Vec::<Token>::new());
    assert_eq!(tokenize(b" \t\r\n"), Vec::<Token>::new());
    assert_eq!(tables(""), Vec::<String>::new());
}

#[test]
fn tokens_carry_their_places() {
    assert_eq!(
        tokenize(b"ab (c)"),
        vec![
            Token { kind: TokenKind::Word, start: 0, end: 2 },
            Token { kind: TokenKind::Symbol, start: 3, end: 4 },
            Token { kind: TokenKind::Word, start: 4, end: 5 },
            Token { kind: TokenKind::Symbol, start: 5, end: 6 },
        ]
    );
    assert_eq!(
        tokenize(b"'ab' \"c\""),
        vec![
            Token { kind: TokenKind::Literal, start: 1, end: 3 },
            Token { kind: TokenKind::Quoted, start: 6, end: 7 },
        ]
    );
}

#[test]
fn words_and_symbols_are_told_apart() {
    assert_eq!(
        pieces("ALTER TABLE products ADD COLUMN collections TEXT NOT NULL DEFAULT '';"),
        vec![
            word("ALTER"),
            word("TABLE"),
            word("products"),
            word("ADD"),
            word("COLUMN"),
            word("collections"),
            word("TEXT"),
            word("NOT"),
            word("NULL"),
            word("DEFAULT"),
            literal(""),
            symbol(";"),
        ]
    );
    assert_eq!(
        pieces("a_1$x=b2,c"),
        vec![word("a_1$x"), symbol("="), word("b2"), symbol(","), word("c")]
    );
    assert_eq!(pieces("caf\u{e9} x"), vec![word("caf\u{e9}"), word("x")]);
}

#[test]
fn comments_are_left_out() {
    assert_eq!(pieces("a -- b c\nd"), vec![word("a"), word("d")]);
    assert_eq!(pieces("a -- b c"), vec![word("a")]);
    assert_eq!(pieces("a /* b\nc */ d"), vec![word("a"), word("d")]);
    assert_eq!(pieces("a /* b c"), vec![word("a")]);
    assert_eq!(pieces("a /* b */"), vec![word("a")]);
    assert_eq!(pieces("a /*/ b */ c"), vec![word("a"), word("c")]);
    assert_eq!(pieces("a - b / c * d"), vec![
        word("a"),
        symbol("-"),
        word("b"),
        symbol("/"),
        word("c"),
        symbol("*"),
        word("d"),
    ]);
    assert_eq!(pieces("a-"), vec![word("a"), symbol("-")]);
    assert_eq!(pieces("a/"), vec![word("a"), symbol("/")]);
}

#[test]
fn quoted_runs_keep_what_stands_between_the_quotes() {
    assert_eq!(pieces("'a b' c"), vec![literal("a b"), word("c")]);
    assert_eq!(pieces("'it''s' c"), vec![literal("it''s"), word("c")]);
    assert_eq!(pieces("\"my table\" c"), vec![quoted("my table"), word("c")]);
    assert_eq!(pieces("\"a\"\"b\" c"), vec![quoted("a\"\"b"), word("c")]);
    assert_eq!(pieces("`my table` c"), vec![quoted("my table"), word("c")]);
    assert_eq!(pieces("[my table] c"), vec![quoted("my table"), word("c")]);
    assert_eq!(pieces("[a]] c"), vec![quoted("a"), symbol("]"), word("c")]);
    assert_eq!(pieces("'' c"), vec![literal(""), word("c")]);
    assert_eq!(pieces("'-- a' /* ' */ c"), vec![literal("-- a"), word("c")]);
}

#[test]
fn unclosed_quoted_runs_go_to_the_end() {
    assert_eq!(pieces("a 'b c"), vec![word("a"), literal("b c")]);
    assert_eq!(pieces("a \"b c"), vec![word("a"), quoted("b c")]);
    assert_eq!(pieces("a [b c"), vec![word("a"), quoted("b c")]);
    assert_eq!(pieces("a '"), vec![word("a"), literal("")]);
    assert_eq!(pieces("a 'b''"), vec![word("a"), literal("b''")]);
}

#[test]
fn plain_definition_is_found() {
    assert_eq!(tables("CREATE TABLE settings (id INTEGER);"), vec!["settings"]);
    assert_eq!(tables("CREATE TABLE IF NOT EXISTS settings (id INTEGER);"), vec!["settings"]);
    assert_eq!(tables("create table if not exists settings(id integer)"), vec!["settings"]);
    assert_eq!(tables("Create\n\tTable\r\nIf Not Exists\n settings"), vec!["settings"]);
}

#[test]
fn names_are_folded_to_small_letters() {
    assert_eq!(tables("CREATE TABLE UI_Settings (x);"), vec!["ui_settings"]);
    assert_eq!(tables("CREATE TABLE \"UI Settings\" (x);"), vec!["ui settings"]);
    assert_eq!(tables("CREATE TABLE \u{c9}T\u{c9} (x);"), vec!["\u{c9}t\u{c9}"]);
}

#[test]
fn modifiers_are_passed_over() {
    assert_eq!(tables("CREATE TEMP TABLE a (x);"), vec!["a"]);
    assert_eq!(tables("CREATE TEMPORARY TABLE IF NOT EXISTS a (x);"), vec!["a"]);
    assert_eq!(tables("CREATE VIRTUAL TABLE a USING fts5(x);"), vec!["a"]);
    assert_eq!(tables("CREATE TEMP TEMP TABLE a (x);"), Vec::<String>::new());
    assert_eq!(tables("CREATE UNIQUE TABLE a (x);"), Vec::<String>::new());
}

#[test]
fn schema_is_passed_over() {
    assert_eq!(tables("CREATE TABLE main.a (x);"), vec!["a"]);
    assert_eq!(tables("CREATE TABLE \"main\".\"A\" (x);"), vec!["a"]);
    assert_eq!(tables("CREATE TABLE IF NOT EXISTS temp . [a b] (x);"), vec!["a b"]);
    assert_eq!(tables("CREATE TABLE main. (x);"), vec!["main"]);
    assert_eq!(tables("CREATE TABLE main.'a' (x);"), vec!["main"]);
}

#[test]
fn quoted_names_are_found() {
    assert_eq!(tables("CREATE TABLE \"a\" (x);"), vec!["a"]);
    assert_eq!(tables("CREATE TABLE `a` (x);"), vec!["a"]);
    assert_eq!(tables("CREATE TABLE [a] (x);"), vec!["a"]);
    assert_eq!(tables("CREATE TABLE\"a\"(x);"), vec!["a"]);
}

#[test]
fn text_values_and_comments_define_nothing() {
    assert_eq!(
        tables("INSERT INTO log (line) VALUES ('CREATE TABLE a (x)');"),
        Vec::<String>::new()
    );
    assert_eq!(tables("-- CREATE TABLE a (x)\nSELECT 1;"), Vec::<String>::new());
    assert_eq!(tables("/* CREATE TABLE a (x) */ SELECT 1;"), Vec::<String>::new());
    assert_eq!(tables("SELECT 'it''s'; CREATE TABLE b (x);"), vec!["b"]);
    assert_eq!(tables("CREATE /* temp */ TABLE -- if not exists\n c (x);"), vec!["c"]);
}

#[test]
fn other_statements_define_nothing() {
    assert_eq!(tables("CREATE INDEX a_x ON a (x);"), Vec::<String>::new());
    assert_eq!(tables("CREATE VIEW v AS SELECT 1;"), Vec::<String>::new());
    assert_eq!(tables("ALTER TABLE a ADD COLUMN y TEXT;"), Vec::<String>::new());
    assert_eq!(tables("DROP TABLE a;"), Vec::<String>::new());
    assert_eq!(tables("CREATE TABLE"), Vec::<String>::new());
    assert_eq!(tables("CREATE TABLE ("), Vec::<String>::new());
    assert_eq!(tables("CREATE TABLE 'a' (x);"), Vec::<String>::new());
    assert_eq!(tables("CREATE TABLE IF NOT EXISTS"), Vec::<String>::new());
    assert_eq!(tables("CREATE TABLE IF NOT a (x);"), vec!["if"]);
    assert_eq!(tables("CREATETABLE a (x);"), Vec::<String>::new());
}

#[test]
fn every_definition_of_a_statement_is_found() {
    assert_eq!(
        tables(
            "CREATE TABLE b (x);\nCREATE TABLE IF NOT EXISTS a (y);\nDROP TABLE b;\nCREATE TABLE b (z);"
        ),
        vec!["b", "a", "b"]
    );
    assert_eq!(tables("CREATE TABLE create (x); create table table (y)"), vec!["create", "table"]);
}
