//! Repository identity and catalog bootstrap.
//!
//! A repository is a directory holding two artifacts: an identity marker
//! file (a small JSON document binding a unique id, a name and a
//! signature) and a catalog database whose schema tracks storage units,
//! the main content catalog, an ingestion queue and key/value parameters.
//! This module mints the identity, renders its marker document, and
//! provisions the catalog schema. Writing the marker file itself is file
//! I/O and is left to the caller.
use vstd::prelude::*;

use crate::filesystem::error::{AppError, AppResult, InternalError};
use crate::filesystem::marker;

verus! {

/// Fixed name of the identity marker file inside the repository root.
pub const SIGN_FILE_NAME: &'static str = ".afilia_repo";

/// Fixed name of the catalog database file inside the repository root.
pub const DB_FILE_NAME: &'static str = "afilia_repo.db";

/// Static repository format version, for future compatibility checks.
/// It is not yet persisted: a freshly created catalog must start with
/// every table empty.
pub const REPO_FORMAT_VERSION: &'static str = "1.0";

/// A lowercase hexadecimal digit.
pub open spec fn is_hex_lower(c: char) -> bool {
    ('0' <= c && c <= '9') || ('a' <= c && c <= 'f')
}

/// Exactly 64 lowercase hexadecimal digits: the hex form of a 256-bit
/// digest.
pub open spec fn is_hex_lower64(s: Seq<char>) -> bool {
    s.len() == 64 && (forall|i: int| 0 <= i < 64 ==> is_hex_lower(#[trigger] s[i]))
}

/// The hyphenated textual form of a 128-bit universally unique
/// identifier: 36 characters, lowercase hex except for hyphens at
/// positions 8, 13, 18 and 23.
pub open spec fn is_uuid_text(s: Seq<char>) -> bool {
    s.len() == 36 && (forall|i: int|
        0 <= i < 36 ==> (if i == 8 || i == 13 || i == 18 || i == 23 {
            s[i] == '-'
        } else {
            is_hex_lower(#[trigger] s[i])
        }))
}

/// The text whose digest signs an identity: `<uuid>:<name>:<payload>`.
pub open spec fn sign_message(uuid: Seq<char>, name: Seq<char>, payload: Seq<char>) -> Seq<char> {
    uuid + seq![':'] + name + seq![':'] + payload
}

/// The hex-encoded digest that `blake3::hash` computes for the given
/// text; it depends on the text alone.
pub uninterp spec fn blake3_hex_of(s: Seq<char>) -> Seq<char>;

/// Relies on `uuid::Uuid::new_v4` and the `Display` impl of `Uuid`: a
/// freshly generated identifier renders as 36 lowercase hyphenated hex
/// characters. The value is random, so nothing is claimed beyond its
/// shape.
#[verifier::external_body]
fn fresh_uuid_text() -> (r: String)
    ensures
        is_uuid_text(r@),
{
    uuid::Uuid::new_v4().to_string()
}

/// Relies on `blake3::hash` and `blake3::Hash::to_hex`: the digest is a
/// function of the input bytes alone and renders as 64 lowercase hex
/// characters.
#[verifier::external_body]
fn blake3_hex(s: &str) -> (r: String)
    ensures
        r@ == blake3_hex_of(s@),
        is_hex_lower64(r@),
{
    let hex = blake3::hash(s.as_bytes()).to_hex();
    hex.as_str().to_string()
}

#[verifier::external_type_specification]
#[verifier::external_body]
pub struct ExConnection(rusqlite::Connection);

/// The set of table names the database behind a connection holds. A
/// connection is assumed to own its database exclusively while this
/// crate uses it (no second handle, no other process altering it), as
/// stated in the concurrency model of this crate.
pub uninterp spec fn db_tables(conn: rusqlite::Connection) -> Set<Seq<char>>;

/// The table created by the `i`-th provisioning statement.
pub open spec fn provision_table_name(i: int) -> Seq<char> {
    if i == 0 {
        "storage_unit"@
    } else if i == 1 {
        "main_catalog"@
    } else if i == 2 {
        "queue"@
    } else {
        "parameter"@
    }
}

/// The `i`-th schema provisioning statement. Each one is a single
/// guarded `CREATE TABLE IF NOT EXISTS` statement, so provisioning is
/// idempotent.
pub open spec fn provision_statement(i: int) -> Seq<char> {
    if i == 0 {
        "CREATE TABLE IF NOT EXISTS storage_unit (id INTEGER PRIMARY KEY, path VARCHAR NOT NULL, file_count INTEGER DEFAULT 0)"@
    } else if i == 1 {
        "CREATE TABLE IF NOT EXISTS main_catalog (id CHAR(36) PRIMARY KEY, hash BLOB NOT NULL, storage_path VARCHAR, created TIMESTAMP DEFAULT CURRENT_TIMESTAMP NOT NULL, modified TIMESTAMP DEFAULT CURRENT_TIMESTAMP NOT NULL)"@
    } else if i == 2 {
        "CREATE TABLE IF NOT EXISTS queue (id CHAR(36) PRIMARY KEY, hash BLOB NOT NULL, created TIMESTAMP DEFAULT CURRENT_TIMESTAMP NOT NULL, modified TIMESTAMP DEFAULT CURRENT_TIMESTAMP NOT NULL)"@
    } else {
        "CREATE TABLE IF NOT EXISTS parameter (key VARCHAR(32) PRIMARY KEY, value VARCHAR(256), created TIMESTAMP DEFAULT CURRENT_TIMESTAMP NOT NULL, modified TIMESTAMP DEFAULT CURRENT_TIMESTAMP NOT NULL)"@
    }
}

/// The tables a database holds after the schema has been provisioned on
/// top of whatever it held before.
pub open spec fn provisioned(s: Set<Seq<char>>) -> Set<Seq<char>> {
    s.insert(provision_table_name(0)).insert(provision_table_name(1)).insert(
        provision_table_name(2),
    ).insert(provision_table_name(3))
}

/// Provisioning the same database twice leaves exactly the tables that
/// provisioning it once leaves.
pub proof fn lemma_provision_idempotent(s: Set<Seq<char>>)
    ensures
        provisioned(provisioned(s)) == provisioned(s),
{
    assert(provisioned(provisioned(s)) =~= provisioned(s));
}

/// A provisioned database keeps every table it had and holds all four
/// schema tables.
pub proof fn lemma_provisioned_contains(s: Set<Seq<char>>)
    ensures
        s.subset_of(provisioned(s)),
        forall|i: int| 0 <= i < 4 ==> provisioned(s).contains(#[trigger] provision_table_name(i)),
{
    assert forall|x: Seq<char>| s.contains(x) implies provisioned(s).contains(x) by {}
    assert(provisioned(s).contains(provision_table_name(0)));
    assert(provisioned(s).contains(provision_table_name(1)));
    assert(provisioned(s).contains(provision_table_name(2)));
    assert(provisioned(s).contains(provision_table_name(3)));
}

/// Relies on `rusqlite::Connection::open`: opens the database file at
/// the given path, creating it if absent, and fails otherwise with an
/// error that is rendered into the returned message. Whether it succeeds
/// depends on the machine, so nothing more is claimed.
#[verifier::external_body]
fn open_connection(path: &str) -> (r: Result<rusqlite::Connection, String>) {
    match rusqlite::Connection::open(path) {
        Ok(conn) => Ok(conn),
        Err(e) => Err(format!("{}", e)),
    }
}

/// Relies on `rusqlite::Connection::execute`: runs a single SQL
/// statement, returning the affected row count or the rendered error.
/// The claims below are SQLite's documented behaviour for this crate's
/// provisioning statements: `CREATE TABLE IF NOT EXISTS t (...)` leaves
/// the schema with table `t` present and everything else untouched when
/// it succeeds, and a single failed statement leaves the schema
/// unchanged.
#[verifier::external_body]
fn connection_execute(conn: &mut rusqlite::Connection, sql: &str) -> (r: Result<usize, String>)
    ensures
        forall|i: int|
            0 <= i < 4 && sql@ == provision_statement(i) && r is Ok ==> db_tables(*final(conn))
                == db_tables(*old(conn)).insert(provision_table_name(i)),
        forall|i: int|
            0 <= i < 4 && sql@ == provision_statement(i) && r is Err ==> db_tables(*final(conn))
                == db_tables(*old(conn)),
{
    match conn.execute(sql, []) {
        Ok(n) => Ok(n),
        Err(e) => Err(format!("{}", e)),
    }
}

/// A repository identity: a globally unique id, the human-chosen
/// repository name, and a signature binding the two to a caller-supplied
/// payload that the identity itself does not store.
pub struct RepositoryID {
    pub uuid: String,
    pub name: String,
    pub sign: String,
}

impl RepositoryID {
    /// Shape of a well-formed identity: a hyphenated uuid, a non-empty
    /// name, and a 64-digit hex signature.
    pub open spec fn valid(self) -> bool {
        is_uuid_text(self.uuid@) && self.name@.len() >= 1 && is_hex_lower64(self.sign@)
    }

    /// Mints a fresh identity: a new unique id, the given name, and the
    /// signature of `<uuid>:<name>:<payload>`.
    pub fn new(name: &str, payload: &str) -> (r: RepositoryID)
        requires
            name@.len() >= 1,
        ensures
            r.valid(),
            r.name@ == name@,
            r.sign@ == blake3_hex_of(sign_message(r.uuid@, name@, payload@)),
    {
        let uuid = fresh_uuid_text();
        let sign = Self::sign(uuid.as_str(), name, payload);
        RepositoryID { uuid, name: String::from_str(name), sign }
    }

    /// Computes the signature binding an id, a name and a payload: the
    /// hex-encoded digest of `<uuid>:<name>:<payload>`.
    pub fn sign(uuid: &str, name: &str, payload: &str) -> (r: String)
        ensures
            r@ == blake3_hex_of(sign_message(uuid@, name@, payload@)),
            is_hex_lower64(r@),
    {
        let mut msg = String::from_str(uuid);
        msg.append(":");
        msg.append(name);
        msg.append(":");
        msg.append(payload);
        proof {
            reveal_strlit(":");
            assert(msg@ =~= sign_message(uuid@, name@, payload@));
        }
        blake3_hex(msg.as_str())
    }

    /// Renders the identity as its marker document: the exact text that
    /// belongs in the marker file inside the repository root.
    pub fn serialize(&self) -> (r: String)
        ensures
            r@ == marker::marker_doc(self.uuid@, self.name@, self.sign@),
    {
        marker::render_marker(self)
    }
}

/// The signing text determines the triple it was built from, as long as
/// the id has its fixed 36-character shape and the name contains no
/// colon: two triples that differ anywhere yield different signing
/// texts, hence (collisions of the underlying digest aside) different
/// signatures. A name containing a colon can collide with another
/// name/payload split, so such names are excluded here.
pub proof fn lemma_sign_message_injective(
    u1: Seq<char>,
    n1: Seq<char>,
    p1: Seq<char>,
    u2: Seq<char>,
    n2: Seq<char>,
    p2: Seq<char>,
)
    requires
        u1.len() == 36,
        u2.len() == 36,
        !n1.contains(':'),
        !n2.contains(':'),
        sign_message(u1, n1, p1) == sign_message(u2, n2, p2),
    ensures
        u1 == u2,
        n1 == n2,
        p1 == p2,
{
    let m = sign_message(u1, n1, p1);
    assert(u1 =~= m.subrange(0, 36));
    assert(u2 =~= m.subrange(0, 36));
    if n1.len() < n2.len() {
        assert(m[37 + n1.len() as int] == ':');
        assert(n2[n1.len() as int] == ':');
        assert(n2.contains(':'));
    } else if n2.len() < n1.len() {
        assert(m[37 + n2.len() as int] == ':');
        assert(n1[n2.len() as int] == ':');
        assert(n1.contains(':'));
    }
    assert(n1.len() == n2.len());
    assert(n1 =~= m.subrange(37, 37 + n1.len() as int));
    assert(n2 =~= m.subrange(37, 37 + n2.len() as int));
    assert(p1 =~= m.subrange(38 + n1.len() as int, m.len() as int));
    assert(p2 =~= m.subrange(38 + n2.len() as int, m.len() as int));
}

/// A handle on the repository's catalog database.
pub struct RepositoryDB {
    pub name: String,
    pub conn: rusqlite::Connection,
}

impl RepositoryDB {
    /// Opens (creating if absent) the catalog database file inside the
    /// repository root. An open failure is surfaced as a database error.
    pub fn new(name: &str, path: &str) -> (r: AppResult<RepositoryDB>)
        ensures
            (r matches Ok(db) ==> db.name@ == name@),
            (r matches Err(e) ==> e.error_kind is Db && e.msg@
                == "cannot open repository database"@),
    {
        let mut file = String::from_str(path);
        file.append("/");
        file.append(DB_FILE_NAME);
        match open_connection(file.as_str()) {
            Ok(conn) => Ok(RepositoryDB { name: String::from_str(name), conn }),
            Err(cause) => Err(
                AppError::from_error(InternalError::Db(cause), "cannot open repository database"),
            ),
        }
    }

    /// Opens a database at the exact given path, discarding the cause of
    /// a failure.
    pub fn connect(path: &str) -> (r: Option<rusqlite::Connection>) {
        match open_connection(path) {
            Ok(conn) => Some(conn),
            Err(_) => None,
        }
    }

    /// Runs a single SQL statement against the catalog, returning the
    /// affected row count; a statement failure is surfaced, never
    /// discarded. For the provisioning statements, the effect on the
    /// schema is stated exactly.
    pub fn execute(&mut self, sql: &str) -> (r: AppResult<usize>)
        ensures
            forall|i: int|
                0 <= i < 4 && sql@ == provision_statement(i) && r is Ok ==> db_tables(
                    final(self).conn,
                ) == db_tables(old(self).conn).insert(provision_table_name(i)),
            forall|i: int|
                0 <= i < 4 && sql@ == provision_statement(i) && r is Err ==> db_tables(
                    final(self).conn,
                ) == db_tables(old(self).conn),
            (r matches Err(e) ==> e.error_kind is Db && e.msg@ == ""@),
            final(self).name == old(self).name,
    {
        match connection_execute(&mut self.conn, sql) {
            Ok(updates) => Ok(updates),
            Err(cause) => Err(AppError::from_error(InternalError::Db(cause), "")),
        }
    }

    /// Provisions the catalog schema: storage units, the main catalog,
    /// the ingestion queue and the parameter table, each through a
    /// guarded `CREATE TABLE IF NOT EXISTS`, so that provisioning twice
    /// changes nothing. The first statement failure is surfaced and
    /// stops provisioning; a single statement is atomic, so the schema
    /// never holds a partially created table.
    pub fn create(&mut self) -> (r: AppResult<()>)
        ensures
            (r is Ok ==> db_tables(final(self).conn) == provisioned(db_tables(old(self).conn))),
            (r matches Err(e) ==> e.error_kind is Db),
            (r is Err ==> db_tables(old(self).conn).subset_of(db_tables(final(self).conn))
                && db_tables(final(self).conn).subset_of(provisioned(db_tables(old(self).conn)))),
            final(self).name == old(self).name,
    {
        let sql0 =
            "CREATE TABLE IF NOT EXISTS storage_unit (id INTEGER PRIMARY KEY, path VARCHAR NOT NULL, file_count INTEGER DEFAULT 0)";
        let sql1 =
            "CREATE TABLE IF NOT EXISTS main_catalog (id CHAR(36) PRIMARY KEY, hash BLOB NOT NULL, storage_path VARCHAR, created TIMESTAMP DEFAULT CURRENT_TIMESTAMP NOT NULL, modified TIMESTAMP DEFAULT CURRENT_TIMESTAMP NOT NULL)";
        let sql2 =
            "CREATE TABLE IF NOT EXISTS queue (id CHAR(36) PRIMARY KEY, hash BLOB NOT NULL, created TIMESTAMP DEFAULT CURRENT_TIMESTAMP NOT NULL, modified TIMESTAMP DEFAULT CURRENT_TIMESTAMP NOT NULL)";
        let sql3 =
            "CREATE TABLE IF NOT EXISTS parameter (key VARCHAR(32) PRIMARY KEY, value VARCHAR(256), created TIMESTAMP DEFAULT CURRENT_TIMESTAMP NOT NULL, modified TIMESTAMP DEFAULT CURRENT_TIMESTAMP NOT NULL)";
        let ghost t0 = db_tables(old(self).conn);
        proof {
            assert(sql0@ == provision_statement(0));
            assert(sql1@ == provision_statement(1));
            assert(sql2@ == provision_statement(2));
            assert(sql3@ == provision_statement(3));
        }
        match self.execute(sql0) {
            Ok(_) => (),
            Err(e) => {
                proof {
                    lemma_provisioned_contains(t0);
                }
                return Err(e);
            },
        }
        match self.execute(sql1) {
            Ok(_) => (),
            Err(e) => {
                proof {
                    lemma_provisioned_contains(t0);
                    assert forall|x: Seq<char>| db_tables(self.conn).contains(x) implies provisioned(
                        t0,
                    ).contains(x) by {}
                    assert forall|x: Seq<char>| t0.contains(x) implies db_tables(
                        self.conn,
                    ).contains(x) by {}
                }
                return Err(e);
            },
        }
        match self.execute(sql2) {
            Ok(_) => (),
            Err(e) => {
                proof {
                    lemma_provisioned_contains(t0);
                    assert forall|x: Seq<char>| db_tables(self.conn).contains(x) implies provisioned(
                        t0,
                    ).contains(x) by {}
                    assert forall|x: Seq<char>| t0.contains(x) implies db_tables(
                        self.conn,
                    ).contains(x) by {}
                }
                return Err(e);
            },
        }
        match self.execute(sql3) {
            Ok(_) => (),
            Err(e) => {
                proof {
                    lemma_provisioned_contains(t0);
                    assert forall|x: Seq<char>| db_tables(self.conn).contains(x) implies provisioned(
                        t0,
                    ).contains(x) by {}
                    assert forall|x: Seq<char>| t0.contains(x) implies db_tables(
                        self.conn,
                    ).contains(x) by {}
                }
                return Err(e);
            },
        }
        Ok(())
    }
}

/// The aggregate: one identity, one catalog handle, one repository root.
pub struct Repository {
    pub id: RepositoryID,
    pub database: RepositoryDB,
    pub path: String,
}

impl Repository {
    /// Creates a repository rooted at `path`: mints a fresh signed
    /// identity, opens the catalog database inside `path` and provisions
    /// its schema. Every failure is surfaced; on success the returned
    /// aggregate holds the identity and a live catalog handle whose
    /// database holds all four tables.
    ///
    /// The identity marker document (`repo.id.serialize()`) is not
    /// written here: persisting it to `SIGN_FILE_NAME` inside `path` is
    /// file I/O and belongs to the caller, who should write it
    /// exclusively before touching the database and remove it again if
    /// this call fails.
    pub fn create(path: &str, name: &str, payload: &str) -> (r: AppResult<Repository>)
        requires
            name@.len() >= 1,
        ensures
            (r matches Ok(repo) ==> {
                &&& repo.path@ == path@
                &&& repo.id.valid()
                &&& repo.id.name@ == name@
                &&& repo.id.sign@ == blake3_hex_of(
                    sign_message(repo.id.uuid@, name@, payload@),
                )
                &&& repo.database.name@ == "repo1"@
                &&& forall|i: int|
                    0 <= i < 4 ==> db_tables(repo.database.conn).contains(
                        #[trigger] provision_table_name(i),
                    )
            }),
            (r matches Err(e) ==> e.error_kind is Db),
    {
        let id = RepositoryID::new(name, payload);
        let mut database = match RepositoryDB::new("repo1", path) {
            Ok(db) => db,
            Err(e) => {
                return Err(e);
            },
        };
        match database.create() {
            Ok(_) => (),
            Err(e) => {
                return Err(e);
            },
        }
        Ok(Repository { id, database, path: String::from_str(path) })
    }
}

} // verus!
