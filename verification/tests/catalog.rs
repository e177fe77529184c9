use afilia::filesystem::repository::{Repository, RepositoryDB, DB_FILE_NAME, SIGN_FILE_NAME};

const TABLES: [&str; 4] = ["storage_unit", "main_catalog", "queue", "parameter"];

fn table_count(path: &str, table: &str) -> i64 {
    let conn = rusqlite::Connection::open(path).unwrap();
    conn.query_row(
        "SELECT count(*) FROM sqlite_master WHERE type = 'table' AND name = ?1",
        [table],
        |row| row.get(0),
    )
    .unwrap()
}

fn row_count(path: &str, table: &str) -> i64 {
    let conn = rusqlite::Connection::open(path).unwrap();
    conn.query_row(&format!("SELECT count(*) FROM {}", table), [], |row| row.get(0)).unwrap()
}

fn db_at(path: &str) -> RepositoryDB {
    let conn = RepositoryDB::connect(path).unwrap();
    RepositoryDB { name: "repo1".to_string(), conn }
}

#[test]
fn provision_is_idempotent() {
    let path = "/tmp/afilia_test_idempotent.db";
    let mut db = db_at(path);
    db.create().unwrap();
    db.create().unwrap();
    for table in TABLES {
        assert_eq!(table_count(path, table), 1, "{} must exist exactly once", table);
    }
}

#[test]
fn execute_surfaces_statement_failures() {
    let path = "/tmp/afilia_test_badsql.db";
    let mut db = db_at(path);
    db.create().unwrap();
    let err = db.execute("CREATE TABLE storage_unit (").unwrap_err();
    match err.error_kind {
        afilia::filesystem::error::InternalError::Db(cause) => {
            assert!(!cause.is_empty());
        },
        _ => panic!("a statement failure must surface as a database error"),
    }
    // the failed statement left the schema as it was
    for table in TABLES {
        assert_eq!(table_count(path, table), 1);
    }
}

#[test]
fn execute_reports_affected_rows() {
    let path = "/tmp/afilia_test_rows.db";
    let mut db = db_at(path);
    db.create().unwrap();
    let inserted = db
        .execute("INSERT OR REPLACE INTO parameter (key, value) VALUES ('k', 'v')")
        .unwrap();
    assert_eq!(inserted, 1);
    let deleted = db.execute("DELETE FROM parameter").unwrap();
    assert_eq!(deleted, 1);
}

#[test]
fn open_failure_is_surfaced() {
    let err = match RepositoryDB::new("repo1", "/tmp/afilia_missing_dir/nested") {
        Ok(_) => panic!("opening a database in a missing directory must fail"),
        Err(e) => e,
    };
    match err.error_kind {
        afilia::filesystem::error::InternalError::Db(_) => {},
        _ => panic!("an open failure must surface as a database error"),
    }
    assert_eq!(err.msg, "cannot open repository database");
    assert!(RepositoryDB::connect("/tmp/afilia_missing_dir/nested.db").is_none());
}

#[test]
fn repository_create_provisions_catalog() {
    let repo = Repository::create("/tmp", "myrepo", "secret").unwrap();
    assert_eq!(repo.id.name, "myrepo");
    assert_eq!(repo.path, "/tmp");
    let marker = repo.id.serialize();
    assert!(marker.contains("\"name\": \"myrepo\""));
    assert_eq!(SIGN_FILE_NAME, ".afilia_repo");
    assert_eq!(DB_FILE_NAME, "afilia_repo.db");
    let db_path = "/tmp/afilia_repo.db";
    for table in TABLES {
        assert_eq!(table_count(db_path, table), 1, "{} must exist exactly once", table);
        assert_eq!(row_count(db_path, table), 0, "{} must start empty", table);
    }
}

#[test]
fn repository_create_fails_without_directory() {
    let err = match Repository::create("/tmp/afilia_missing_dir", "myrepo", "secret") {
        Ok(_) => panic!("creation in a missing directory must fail"),
        Err(e) => e,
    };
    match err.error_kind {
        afilia::filesystem::error::InternalError::Db(_) => {},
        _ => panic!("creation in a missing directory must fail as a database error"),
    }
}
