//! Configuration data: database kinds, connection parameters, and the
//! per-target backup settings the engine reads on every tick.

use vstd::prelude::*;

use crate::text::{parse_usize, parsed_id, str_eq};

verus! {

/// The two supported database categories. They differ in retry and
/// deduplication policy: `MariaDB` dumps are retried once with relaxed
/// locking and deduplicated against the preceding artifact, while
/// `PostgreSQL` dumps get a single attempt and no deduplication.
#[derive(Clone, Copy, Debug, PartialEq, Eq, Structural)]
pub enum DbType {
    MariaDB,
    PostgreSQL,
}

impl DbType {
    /// Human-readable name of the kind, as shown in listings.
    pub fn label(&self) -> (r: &'static str)
        ensures
            *self is MariaDB ==> r@ == "MariaDB"@,
            *self is PostgreSQL ==> r@ == "PostgreSQL"@,
    {
        match self {
            DbType::MariaDB => "MariaDB",
            DbType::PostgreSQL => "PostgreSQL",
        }
    }
}

/// How to reach one database server. The secret, when present, is only
/// ever handed to the dump process through its environment, never as a
/// command-line argument.
#[derive(Clone, Debug)]
pub struct ConnectionDetails {
    pub host: String,
    pub port: u16,
    pub user: String,
    pub password: Option<String>,
    pub database: String,
}

/// One configured backup target.
#[derive(Clone, Debug)]
pub struct DatabaseConfig {
    pub name: String,
    pub db_type: DbType,
    pub connection: ConnectionDetails,
    /// Directory that receives this target's artifacts.
    pub output_dir: String,
    /// How many artifacts to keep after rotation.
    pub retention_count: usize,
    /// Cron expression for scheduling (e.g., "0 0 * * * *").
    /// If None, it won't be scheduled automatically.
    pub schedule: Option<String>,
    pub enabled: bool,
}

/// The whole configuration: every known target.
#[derive(Debug)]
pub struct AppConfig {
    pub databases: Vec<DatabaseConfig>,
}

impl Default for AppConfig {
    /// An empty configuration, used when none has been stored yet.
    fn default() -> (r: Self)
        ensures
            r.databases@.len() == 0,
    {
        AppConfig { databases: Vec::new() }
    }
}

/// Failure of a configuration lookup: no target has the given
/// identifier or name.
#[derive(Clone, Copy, Debug, PartialEq, Eq, Structural)]
pub enum LookupError {
    NotFound,
}

/// A query selects a target by position when it reads as a one-based
/// index that lies within the list.
pub open spec fn id_selects(q: Seq<char>, len: nat) -> bool {
    match parsed_id(q) {
        Some(id) => 1 <= id <= len,
        None => false,
    }
}

/// `i` is the first position whose target is named `q`.
pub open spec fn name_hit(dbs: Seq<DatabaseConfig>, q: Seq<char>, i: int) -> bool {
    &&& 0 <= i < dbs.len()
    &&& dbs[i].name@ == q
    &&& forall|j: int| 0 <= j < i ==> dbs[j].name@ != q
}

/// The position a lookup must return: the one-based index when the
/// query reads as one in range, else the first name match.
pub open spec fn lookup_ok(dbs: Seq<DatabaseConfig>, q: Seq<char>, i: int) -> bool {
    if id_selects(q, dbs.len()) {
        i + 1 == parsed_id(q)->0
    } else {
        name_hit(dbs, q, i)
    }
}

/// A lookup fails exactly when the query is neither an in-range
/// one-based index nor the name of any target.
pub open spec fn lookup_fails(dbs: Seq<DatabaseConfig>, q: Seq<char>) -> bool {
    &&& !id_selects(q, dbs.len())
    &&& forall|j: int| 0 <= j < dbs.len() ==> dbs[j].name@ != q
}

/// Resolves a query to a target position: a one-based index if the
/// query parses as one in range, otherwise the first target with that
/// exact name.
pub fn find_db_index(query: &str, databases: &[DatabaseConfig]) -> (r: Result<
    usize,
    LookupError,
>)
    ensures
        r matches Ok(i) ==> lookup_ok(databases@, query@, i as int),
        r is Err ==> lookup_fails(databases@, query@),
{
    if let Some(id) = parse_usize(query) {
        if id >= 1 && id <= databases.len() {
            return Ok(id - 1);
        }
    }
    let n = databases.len();
    let mut i: usize = 0;
    while i < n
        invariant
            i <= n,
            n == databases@.len(),
            !id_selects(query@, databases@.len()),
            forall|j: int| 0 <= j < i ==> databases@[j].name@ != query@,
        decreases n - i,
    {
        if str_eq(databases[i].name.as_str(), query) {
            return Ok(i);
        }
        i += 1;
    }
    Err(LookupError::NotFound)
}

/// Resolves a query as `find_db_index` does and sets that target's
/// `enabled` flag, leaving every other field and target untouched.
pub fn set_enabled(databases: &mut Vec<DatabaseConfig>, query: &str, value: bool) -> (r: Result<
    usize,
    LookupError,
>)
    ensures
        r matches Ok(i) ==> {
            &&& lookup_ok(old(databases)@, query@, i as int)
            &&& final(databases)@ == old(databases)@.update(
                i as int,
                (DatabaseConfig { enabled: value, ..old(databases)@[i as int] }),
            )
        },
        r is Err ==> {
            &&& lookup_fails(old(databases)@, query@)
            &&& final(databases)@ == old(databases)@
        },
{
    let i = match find_db_index(query, databases.as_slice()) {
        Ok(i) => i,
        Err(e) => {
            return Err(e);
        },
    };
    let entry = databases.remove(i);
    let updated = DatabaseConfig { enabled: value, ..entry };
    databases.insert(i, updated);
    proof {
        assert(final(databases)@ =~= old(databases)@.update(
            i as int,
            (DatabaseConfig { enabled: value, ..old(databases)@[i as int] }),
        ));
    }
    Ok(i)
}

/// Value a target's `enabled` flag takes when the stored configuration
/// does not mention it.
pub fn default_enabled() -> (r: bool)
    ensures
        r == true,
{
    true
}

} // verus!
