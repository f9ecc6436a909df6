//! The per-target execution protocol. The dump itself is an external
//! program run by the caller; this module decides, with exact
//! contracts, which attempt to run first, what to do after an attempt
//! fails or succeeds, and which arguments and environment the dump
//! processes get. A secret is only ever placed in the environment,
//! never among the arguments.

use vstd::prelude::*;

use crate::models::{ConnectionDetails, DbType};
use crate::text::dec_rep;

verus! {

/// One dump attempt variant: the standard locking dump, the relaxed
/// fallback retry, or the single snapshot-consistent attempt.
#[derive(Clone, Copy, Debug, PartialEq, Eq, Structural)]
pub enum DumpAttempt {
    Standard,
    Fallback,
    Single,
}

/// What to do once an attempt has finished.
#[derive(Clone, Copy, Debug, PartialEq, Eq, Structural)]
pub enum AttemptVerdict {
    /// The artifact was produced; go on to deduplication and rotation.
    Produced,
    /// Run the given attempt next against the same output path.
    Retry(DumpAttempt),
    /// Give up: delete the partial output file and report the failure.
    FailedCleanup,
}

/// The first attempt for a database kind: lock-sensitive engines get
/// the standard dump (with a fallback in reserve), snapshot-consistent
/// engines their single attempt.
pub fn first_attempt(kind: &DbType) -> (r: DumpAttempt)
    ensures
        *kind is MariaDB ==> r is Standard,
        *kind is PostgreSQL ==> r is Single,
{
    match kind {
        DbType::MariaDB => DumpAttempt::Standard,
        DbType::PostgreSQL => DumpAttempt::Single,
    }
}

/// The protocol's answer to an attempt's outcome: success always
/// produces the artifact; a failed standard dump of a lock-sensitive
/// engine is retried once with the relaxed fallback; any other failure
/// ends in cleanup. The fallback's error, not the first attempt's, is
/// what a failed retry surfaces.
pub fn attempt_verdict(kind: &DbType, attempt: DumpAttempt, succeeded: bool) -> (r: AttemptVerdict)
    ensures
        succeeded ==> r is Produced,
        !succeeded && *kind is MariaDB && attempt is Standard ==> r == AttemptVerdict::Retry(
            DumpAttempt::Fallback,
        ),
        !succeeded && !(*kind is MariaDB && attempt is Standard) ==> r is FailedCleanup,
{
    if succeeded {
        AttemptVerdict::Produced
    } else if matches!(kind, DbType::MariaDB) && matches!(attempt, DumpAttempt::Standard) {
        AttemptVerdict::Retry(DumpAttempt::Fallback)
    } else {
        AttemptVerdict::FailedCleanup
    }
}

/// The argument list for the lock-sensitive engine's dump program:
/// host, port and user, the robustness flags, the relaxed-locking
/// flags on the fallback attempt, and the database name last. The
/// secret is not among them.
pub fn mysqldump_args(conn: &ConnectionDetails, skip_lock: bool) -> (r: Vec<String>)
    ensures
        r@.len() == (if skip_lock {
            9int
        } else {
            6int
        }),
        r@[0]@ == "-h"@ + conn.host@,
        r@[1]@ == "-P"@ + dec_rep(conn.port as nat),
        r@[2]@ == "-u"@ + conn.user@,
        r@[3]@ == "--column-statistics=0"@,
        r@[4]@ == "--skip-dump-date"@,
        skip_lock ==> {
            &&& r@[5]@ == "--skip-lock-tables"@
            &&& r@[6]@ == "--single-transaction"@
            &&& r@[7]@ == "--quick"@
        },
        r@[r@.len() - 1]@ == conn.database@,
{
    let mut args: Vec<String> = Vec::new();
    let mut host = String::from_str("-h");
    host.append(conn.host.as_str());
    args.push(host);
    let mut port = String::from_str("-P");
    port.append(crate::text::u64_to_string(conn.port as u64).as_str());
    args.push(port);
    let mut user = String::from_str("-u");
    user.append(conn.user.as_str());
    args.push(user);
    args.push(String::from_str("--column-statistics=0"));
    args.push(String::from_str("--skip-dump-date"));
    if skip_lock {
        args.push(String::from_str("--skip-lock-tables"));
        args.push(String::from_str("--single-transaction"));
        args.push(String::from_str("--quick"));
    }
    args.push(String::from_str(conn.database.as_str()));
    args
}

/// The environment for the lock-sensitive engine's dump process: the
/// secret, if one is configured, and nothing else.
pub fn mysql_env(conn: &ConnectionDetails) -> (r: Vec<(String, String)>)
    ensures
        match conn.password {
            Some(ref p) => r@.len() == 1 && r@[0].0@ == "MYSQL_PWD"@ && r@[0].1@ == p@,
            None => r@.len() == 0,
        },
{
    let mut env: Vec<(String, String)> = Vec::new();
    match &conn.password {
        Some(p) => {
            env.push((String::from_str("MYSQL_PWD"), p.clone()));
        },
        None => {},
    }
    env
}

/// The environment for the snapshot-consistent engine's dump process:
/// its native connection variables, the secret last and only when
/// configured.
pub fn pg_env(conn: &ConnectionDetails) -> (r: Vec<(String, String)>)
    ensures
        r@.len() == (match conn.password {
            Some(_) => 5int,
            None => 4int,
        }),
        r@[0].0@ == "PGHOST"@ && r@[0].1@ == conn.host@,
        r@[1].0@ == "PGPORT"@ && r@[1].1@ == dec_rep(conn.port as nat),
        r@[2].0@ == "PGUSER"@ && r@[2].1@ == conn.user@,
        r@[3].0@ == "PGDATABASE"@ && r@[3].1@ == conn.database@,
        match conn.password {
            Some(ref p) => r@[4].0@ == "PGPASSWORD"@ && r@[4].1@ == p@,
            None => true,
        },
{
    let mut env: Vec<(String, String)> = Vec::new();
    env.push((String::from_str("PGHOST"), conn.host.clone()));
    env.push((String::from_str("PGPORT"), crate::text::u64_to_string(conn.port as u64)));
    env.push((String::from_str("PGUSER"), conn.user.clone()));
    env.push((String::from_str("PGDATABASE"), conn.database.clone()));
    match &conn.password {
        Some(p) => {
            env.push((String::from_str("PGPASSWORD"), p.clone()));
        },
        None => {},
    }
    env
}

} // verus!
