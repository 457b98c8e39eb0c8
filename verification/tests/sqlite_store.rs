use migration_ledger::{migrations, AppliedVersionRecord, MigrationError, MigrationStep, Runner};
use rusqlite::Connection;

/// What applying a ledger to a store gave: the versions that the run
/// executed, in order.
type Applied = Result<Vec<i64>, MigrationError>;

fn applied_versions(conn: &Connection) -> Vec<i64> {
    conn.execute_batch("CREATE TABLE IF NOT EXISTS applied_versions (version INTEGER PRIMARY KEY);")
        .unwrap();
    let mut query = conn.prepare("SELECT version FROM applied_versions ORDER BY version").unwrap();
    let rows = query.query_map((), |row| row.get::<_, i64>(0)).unwrap();
    rows.map(|row| row.unwrap()).collect()
}

fn execute(conn: &mut Connection, step: &MigrationStep) -> Result<(), String> {
    let tx = conn.transaction().map_err(|e| e.to_string())?;
    tx.execute_batch(&step.statement).map_err(|e| e.to_string())?;
    tx.execute("INSERT INTO applied_versions (version) VALUES (?1)", (step.version,))
        .map_err(|e| e.to_string())?;
    tx.commit().map_err(|e| e.to_string())
}

fn apply(conn: &mut Connection, ledger: Vec<MigrationStep>) -> Applied {
    let record = AppliedVersionRecord::from_versions(&applied_versions(conn));
    let mut runner = Runner::start(ledger, record)?;
    loop {
        let result = match runner.pending() {
            Some(step) => execute(conn, step),
            None => break,
        };
        runner = match result {
            Ok(()) => runner.committed(),
            Err(cause) => runner.failed(cause),
        };
    }
    match runner.outcome() {
        Some(Ok(())) => Ok(runner.executed().clone()),
        Some(Err(error)) => Err(error),
        None => unreachable!(),
    }
}

fn tables(conn: &Connection) -> Vec<String> {
    let mut query = conn
        .prepare(
            "SELECT name FROM sqlite_master WHERE type = 'table' \
             AND name NOT LIKE 'sqlite_%' AND name <> 'applied_versions' ORDER BY name",
        )
        .unwrap();
    let rows = query.query_map((), |row| row.get::<_, String>(0)).unwrap();
    rows.map(|row| row.unwrap()).collect()
}

fn settings(conn: &Connection) -> Vec<(String, String)> {
    let mut query = conn.prepare("SELECT key, value FROM settings ORDER BY id").unwrap();
    let rows = query
        .query_map((), |row| Ok((row.get::<_, String>(0)?, row.get::<_, String>(1)?)))
        .unwrap();
    rows.map(|row| row.unwrap()).collect()
}

#[test]
fn empty_store_gets_the_whole_schema() {
    let mut conn = Connection::open_in_memory().unwrap();
    let executed = apply(&mut conn, migrations()).unwrap();
    assert_eq!(executed, vec![1, 2, 3, 4, 5, 6, 7, 8, 9, 10, 11]);
    assert_eq!(applied_versions(&conn), vec![1, 2, 3, 4, 5, 6, 7, 8, 9, 10, 11]);
    assert_eq!(
        tables(&conn),
        vec!["collections", "files", "pages", "products", "settings", "ui_settings"]
    );
    assert_eq!(
        settings(&conn),
        vec![
            ("shopifyProductionStoreUrl".to_string(), String::new()),
            ("shopifyProductionAccessToken".to_string(), String::new()),
            ("shopifyStagingStoreUrl".to_string(), String::new()),
            ("shopifyStagingAccessToken".to_string(), String::new()),
        ]
    );
    let column: (String, i64, String) = conn
        .query_row(
            "SELECT type, \"notnull\", dflt_value FROM pragma_table_info('products') \
             WHERE name = 'collections'",
            (),
            |row| Ok((row.get(0)?, row.get(1)?, row.get(2)?)),
        )
        .unwrap();
    assert_eq!(column, ("TEXT".to_string(), 1, "''".to_string()));
}

#[test]
fn store_at_version_nine_runs_only_the_last_two() {
    let mut conn = Connection::open_in_memory().unwrap();
    let mut first_nine = migrations();
    first_nine.truncate(9);
    let executed = apply(&mut conn, first_nine).unwrap();
    assert_eq!(executed, vec![1, 2, 3, 4, 5, 6, 7, 8, 9]);
    assert_eq!(tables(&conn), vec!["collections", "pages", "products", "settings", "ui_settings"]);

    let executed = apply(&mut conn, migrations()).unwrap();
    assert_eq!(executed, vec![10, 11]);
    assert_eq!(applied_versions(&conn), vec![1, 2, 3, 4, 5, 6, 7, 8, 9, 10, 11]);
    assert_eq!(settings(&conn).len(), 4);
    assert_eq!(
        tables(&conn),
        vec!["collections", "files", "pages", "products", "settings", "ui_settings"]
    );
}

#[test]
fn second_application_executes_nothing() {
    let mut conn = Connection::open_in_memory().unwrap();
    apply(&mut conn, migrations()).unwrap();
    let schema_once: Vec<String> = {
        let mut query = conn.prepare("SELECT sql FROM sqlite_master ORDER BY name").unwrap();
        let rows = query.query_map((), |row| row.get::<_, Option<String>>(0)).unwrap();
        rows.map(|row| row.unwrap().unwrap_or_default()).collect()
    };
    let settings_once = settings(&conn);
    let applied_once = applied_versions(&conn);

    let executed = apply(&mut conn, migrations()).unwrap();
    assert_eq!(executed, Vec::<i64>::new());
    let schema_twice: Vec<String> = {
        let mut query = conn.prepare("SELECT sql FROM sqlite_master ORDER BY name").unwrap();
        let rows = query.query_map((), |row| row.get::<_, Option<String>>(0)).unwrap();
        rows.map(|row| row.unwrap().unwrap_or_default()).collect()
    };
    assert_eq!(schema_twice, schema_once);
    assert_eq!(settings(&conn), settings_once);
    assert_eq!(applied_versions(&conn), applied_once);
}

#[test]
fn failing_step_stops_the_run() {
    let mut conn = Connection::open_in_memory().unwrap();
    let ledger = vec![
        MigrationStep::new(1, "create_a", "CREATE TABLE a (id INTEGER PRIMARY KEY);"),
        MigrationStep::new(2, "create_b", "CREATE TABLE b (id INTEGER PRIMARY KEY);"),
        MigrationStep::new(3, "fill_missing", "INSERT INTO missing (id) VALUES (1);"),
        MigrationStep::new(4, "create_d", "CREATE TABLE d (id INTEGER PRIMARY KEY);"),
    ];
    let error = apply(&mut conn, ledger).unwrap_err();
    match error {
        MigrationError::MigrationFailed { version, cause } => {
            assert_eq!(version, 3);
            assert!(cause.contains("missing"), "cause was: {}", cause);
        }
        other => panic!("unexpected error: {:?}", other),
    }
    assert_eq!(applied_versions(&conn), vec![1, 2]);
    assert_eq!(tables(&conn), vec!["a", "b"]);
}

#[test]
fn failing_step_leaves_no_partial_effect() {
    let mut conn = Connection::open_in_memory().unwrap();
    let ledger = vec![
        MigrationStep::new(1, "create_a", "CREATE TABLE a (id INTEGER PRIMARY KEY);"),
        MigrationStep::new(
            2,
            "create_b_and_fail",
            "CREATE TABLE b (id INTEGER PRIMARY KEY); INSERT INTO a (id) VALUES (7); \
             INSERT INTO missing (id) VALUES (1);",
        ),
    ];
    let error = apply(&mut conn, ledger).unwrap_err();
    assert!(matches!(error, MigrationError::MigrationFailed { version: 2, .. }));
    assert_eq!(applied_versions(&conn), vec![1]);
    assert_eq!(tables(&conn), vec!["a"]);
    let rows: i64 = conn.query_row("SELECT COUNT(*) FROM a", (), |row| row.get(0)).unwrap();
    assert_eq!(rows, 0);
}

#[test]
fn run_after_a_failure_resumes_at_the_failed_step() {
    let mut conn = Connection::open_in_memory().unwrap();
    let broken = vec![
        MigrationStep::new(1, "create_a", "CREATE TABLE a (id INTEGER PRIMARY KEY);"),
        MigrationStep::new(2, "fill_b", "INSERT INTO b (id) VALUES (1);"),
        MigrationStep::new(3, "create_c", "CREATE TABLE c (id INTEGER PRIMARY KEY);"),
    ];
    assert!(apply(&mut conn, broken).is_err());
    conn.execute_batch("CREATE TABLE b (id INTEGER PRIMARY KEY);").unwrap();
    let same = vec![
        MigrationStep::new(1, "create_a", "CREATE TABLE a (id INTEGER PRIMARY KEY);"),
        MigrationStep::new(2, "fill_b", "INSERT INTO b (id) VALUES (1);"),
        MigrationStep::new(3, "create_c", "CREATE TABLE c (id INTEGER PRIMARY KEY);"),
    ];
    assert_eq!(apply(&mut conn, same).unwrap(), vec![2, 3]);
    assert_eq!(applied_versions(&conn), vec![1, 2, 3]);
}

#[test]
fn redefined_table_is_refused_before_execution() {
    let mut conn = Connection::open_in_memory().unwrap();
    let mut ledger = migrations();
    let pages = ledger[6].statement.clone();
    ledger[7] = MigrationStep::new(8, "create_products_table", &pages);
    assert_eq!(apply(&mut conn, ledger), Err(MigrationError::DuplicateTableDefinition));
    assert_eq!(applied_versions(&conn), Vec::<i64>::new());
    assert_eq!(tables(&conn), Vec::<String>::new());
}

#[test]
fn duplicate_version_is_refused_before_execution() {
    let mut conn = Connection::open_in_memory().unwrap();
    let ledger = vec![
        MigrationStep::new(1, "create_a", "CREATE TABLE a (id INTEGER PRIMARY KEY);"),
        MigrationStep::new(2, "create_b", "CREATE TABLE b (id INTEGER PRIMARY KEY);"),
        MigrationStep::new(2, "create_c", "CREATE TABLE c (id INTEGER PRIMARY KEY);"),
    ];
    assert_eq!(apply(&mut conn, ledger), Err(MigrationError::DuplicateVersion));
    assert_eq!(applied_versions(&conn), Vec::<i64>::new());
    assert_eq!(tables(&conn), Vec::<String>::new());
}

#[test]
fn out_of_order_ledger_is_refused_before_execution() {
    let mut conn = Connection::open_in_memory().unwrap();
    let ledger = vec![
        MigrationStep::new(2, "create_b", "CREATE TABLE b (id INTEGER PRIMARY KEY);"),
        MigrationStep::new(1, "create_a", "CREATE TABLE a (id INTEGER PRIMARY KEY);"),
    ];
    assert_eq!(apply(&mut conn, ledger), Err(MigrationError::OutOfOrder));
    assert_eq!(tables(&conn), Vec::<String>::new());
}

#[test]
fn gaps_between_versions_are_tolerated() {
    let mut conn = Connection::open_in_memory().unwrap();
    let ledger = vec![
        MigrationStep::new(3, "create_a", "CREATE TABLE a (id INTEGER PRIMARY KEY);"),
        MigrationStep::new(10, "create_b", "CREATE TABLE b (id INTEGER PRIMARY KEY);"),
        MigrationStep::new(40, "create_c", "CREATE TABLE c (id INTEGER PRIMARY KEY);"),
    ];
    assert_eq!(apply(&mut conn, ledger).unwrap(), vec![3, 10, 40]);
    assert_eq!(applied_versions(&conn), vec![3, 10, 40]);
}

#[test]
fn step_recorded_out_of_sequence_is_passed_over() {
    let mut conn = Connection::open_in_memory().unwrap();
    let only_second =
        vec![MigrationStep::new(2, "create_b", "CREATE TABLE b (id INTEGER PRIMARY KEY);")];
    assert_eq!(apply(&mut conn, only_second).unwrap(), vec![2]);
    let ledger = vec![
        MigrationStep::new(1, "create_a", "CREATE TABLE a (id INTEGER PRIMARY KEY);"),
        MigrationStep::new(2, "create_b", "CREATE TABLE b (id INTEGER PRIMARY KEY);"),
        MigrationStep::new(3, "create_c", "CREATE TABLE c (id INTEGER PRIMARY KEY);"),
    ];
    assert_eq!(apply(&mut conn, ledger).unwrap(), vec![1, 3]);
    assert_eq!(tables(&conn), vec!["a", "b", "c"]);
}
