use db_shield::artifacts::{artifact_name, is_artifact_of, latest_artifact};
use db_shield::dedup::{bytes_identical, dedup_applies, deduplicate, FileEntry};
use db_shield::executor::{
    attempt_verdict, first_attempt, mysql_env, mysqldump_args, pg_env, AttemptVerdict, DumpAttempt,
};
use db_shield::models::{
    default_enabled, find_db_index, set_enabled, ConnectionDetails, DatabaseConfig, DbType,
    LookupError,
};
use db_shield::orchestrator::{evaluate_target, TickDecision};
use db_shield::rotate::{rotation_split, sort_by_age, ArtifactMeta};
use db_shield::schedule::{
    next_firing, schedule_daily, schedule_every_minute, schedule_hourly, schedule_monthly,
    schedule_weekly, ScheduleError,
};
use db_shield::tracker::FireTracker;

fn conn(password: Option<&str>) -> ConnectionDetails {
    ConnectionDetails {
        host: "localhost".to_string(),
        port: 3306,
        user: "root".to_string(),
        password: password.map(|p| p.to_string()),
        database: "shop".to_string(),
    }
}

fn target(name: &str, db_type: DbType, schedule: Option<&str>, enabled: bool) -> DatabaseConfig {
    DatabaseConfig {
        name: name.to_string(),
        db_type,
        connection: conn(None),
        output_dir: "./backups".to_string(),
        retention_count: 3,
        schedule: schedule.map(|s| s.to_string()),
        enabled,
    }
}

// 2024-01-01T13:00:00Z
const HOUR_INSTANT: i64 = 1_704_114_000;

#[test]
fn hourly_due_instant_in_window() {
    // now = 13:00:05, window reaches back 61 seconds
    let now = HOUR_INSTANT + 5;
    let r = next_firing("0 0 * * * *", now - 61, now);
    assert_eq!(r, Ok(Some(HOUR_INSTANT)));
}

#[test]
fn due_instant_suppressed_after_marking() {
    let mut tracker = FireTracker::new();
    let now = HOUR_INSTANT + 5;
    let due = next_firing("0 0 * * * *", now - 61, now).unwrap().unwrap();
    assert!(tracker.should_fire("x", due));
    tracker.mark_fired("x", due);
    // a second evaluation two seconds later finds the same instant
    let now2 = HOUR_INSTANT + 7;
    let due2 = next_firing("0 0 * * * *", now2 - 61, now2).unwrap().unwrap();
    assert_eq!(due2, HOUR_INSTANT);
    assert!(!tracker.should_fire("x", due2));
}

#[test]
fn latest_in_window_firing_wins() {
    // window [13:00:00, 13:02:10] holds three every-minute firings;
    // the most recent one is the due instant
    let r = next_firing("0 * * * * *", HOUR_INSTANT, HOUR_INSTANT + 130);
    assert_eq!(r, Ok(Some(HOUR_INSTANT + 120)));
}

#[test]
fn window_start_is_inclusive() {
    // a firing exactly at the window's start is still due
    let r = next_firing("0 0 * * * *", HOUR_INSTANT, HOUR_INSTANT + 5);
    assert_eq!(r, Ok(Some(HOUR_INSTANT)));
}

#[test]
fn dedup_policy_is_per_kind() {
    assert!(dedup_applies(&DbType::MariaDB));
    assert!(!dedup_applies(&DbType::PostgreSQL));
}

#[test]
fn no_firing_outside_window() {
    // now = 13:30:00, hourly schedule: the 13:00:00 firing is outside
    // a 61-second window and the next is at 14:00:00
    let now = HOUR_INSTANT + 1800;
    let r = next_firing("0 0 * * * *", now - 61, now);
    assert_eq!(r, Ok(None));
}

#[test]
fn invalid_expression_is_an_error() {
    let now = HOUR_INSTANT;
    assert_eq!(
        next_firing("not a cron line", now - 61, now),
        Err(ScheduleError::InvalidExpression)
    );
}

#[test]
fn every_minute_fires_each_minute() {
    // 13:02:10; the every-minute schedule fired at 13:02:00
    let now = HOUR_INSTANT + 130;
    let r = next_firing("0 * * * * *", now - 61, now);
    assert_eq!(r, Ok(Some(HOUR_INSTANT + 120)));
}

#[test]
fn tracker_overwrites_per_target() {
    let mut tracker = FireTracker::new();
    tracker.mark_fired("a", 100);
    tracker.mark_fired("b", 50);
    tracker.mark_fired("a", 200);
    assert!(!tracker.should_fire("a", 150));
    assert!(!tracker.should_fire("a", 200));
    assert!(tracker.should_fire("a", 201));
    assert!(!tracker.should_fire("b", 50));
    assert!(tracker.should_fire("b", 51));
    assert!(tracker.should_fire("c", 1));
}

#[test]
fn evaluate_target_decisions() {
    let mut tracker = FireTracker::new();
    let now = HOUR_INSTANT + 5;
    let ws = now - 61;

    let disabled = target("d", DbType::MariaDB, Some("0 0 * * * *"), false);
    assert_eq!(evaluate_target(&disabled, &tracker, ws, now), TickDecision::SkipDisabled);

    let unscheduled = target("u", DbType::MariaDB, None, true);
    assert_eq!(evaluate_target(&unscheduled, &tracker, ws, now), TickDecision::SkipUnscheduled);

    let invalid = target("i", DbType::MariaDB, Some("bogus"), true);
    assert_eq!(evaluate_target(&invalid, &tracker, ws, now), TickDecision::SkipInvalidSchedule);

    let due = target("x", DbType::MariaDB, Some("0 0 * * * *"), true);
    assert_eq!(evaluate_target(&due, &tracker, ws, now), TickDecision::Fire(HOUR_INSTANT));

    tracker.mark_fired("x", HOUR_INSTANT);
    assert_eq!(evaluate_target(&due, &tracker, ws, now), TickDecision::SkipAlreadyFired);

    let late = HOUR_INSTANT + 1800;
    assert_eq!(
        evaluate_target(&due, &tracker, late - 61, late),
        TickDecision::SkipNotDue
    );
}

#[test]
fn rotation_keeps_the_three_newest() {
    // retention 3, five artifacts: only the three newest remain
    let names = [
        "sales_20240101_000000.sql",
        "sales_20240102_000000.sql",
        "sales_20240103_000000.sql",
        "sales_20240104_000000.sql",
        "sales_20240105_000000.sql",
    ];
    let artifacts: Vec<ArtifactMeta> = names
        .iter()
        .enumerate()
        .map(|(i, n)| ArtifactMeta { name: n.to_string(), mtime: 1000 + i as i64 })
        .collect();
    let (removed, kept) = rotation_split(artifacts, 3);
    let removed_names: Vec<&str> = removed.iter().map(|a| a.name.as_str()).collect();
    let kept_names: Vec<&str> = kept.iter().map(|a| a.name.as_str()).collect();
    assert_eq!(
        removed_names,
        vec!["sales_20240101_000000.sql", "sales_20240102_000000.sql"]
    );
    assert_eq!(
        kept_names,
        vec![
            "sales_20240103_000000.sql",
            "sales_20240104_000000.sql",
            "sales_20240105_000000.sql"
        ]
    );
}

#[test]
fn rotation_below_retention_removes_nothing() {
    let artifacts = vec![
        ArtifactMeta { name: "a_1.sql".to_string(), mtime: 5 },
        ArtifactMeta { name: "a_2.sql".to_string(), mtime: 6 },
    ];
    let (removed, kept) = rotation_split(artifacts, 3);
    assert!(removed.is_empty());
    assert_eq!(kept.len(), 2);
}

#[test]
fn rotation_with_zero_retention_removes_all() {
    let artifacts = vec![
        ArtifactMeta { name: "a_1.sql".to_string(), mtime: 5 },
        ArtifactMeta { name: "a_2.sql".to_string(), mtime: 6 },
    ];
    let (removed, kept) = rotation_split(artifacts, 0);
    assert_eq!(removed.len(), 2);
    assert!(kept.is_empty());
}

#[test]
fn sort_by_age_breaks_ties_by_name() {
    let items = vec![
        ArtifactMeta { name: "t_b.sql".to_string(), mtime: 7 },
        ArtifactMeta { name: "t_a.sql".to_string(), mtime: 7 },
        ArtifactMeta { name: "t_c.sql".to_string(), mtime: 3 },
    ];
    let sorted = sort_by_age(items);
    let names: Vec<&str> = sorted.iter().map(|a| a.name.as_str()).collect();
    assert_eq!(names, vec!["t_c.sql", "t_a.sql", "t_b.sql"]);
}

#[test]
fn identical_dump_is_discarded_once() {
    // two byte-identical consecutive dumps: the new one goes, and a
    // rerun deletes nothing further
    let mut files = vec![
        FileEntry { name: "sales_20240101_000000.sql".to_string(), content: b"dump".to_vec() },
        FileEntry { name: "sales_20240102_000000.sql".to_string(), content: b"dump".to_vec() },
    ];
    let kept = deduplicate(&mut files, "sales", "sales_20240102_000000.sql");
    assert!(!kept);
    assert_eq!(files.len(), 1);
    assert_eq!(files[0].name, "sales_20240101_000000.sql");

    let kept_again = deduplicate(&mut files, "sales", "sales_20240102_000000.sql");
    assert!(kept_again);
    assert_eq!(files.len(), 1);
}

#[test]
fn changed_dump_is_kept() {
    let mut files = vec![
        FileEntry { name: "sales_20240101_000000.sql".to_string(), content: b"old".to_vec() },
        FileEntry { name: "sales_20240102_000000.sql".to_string(), content: b"new".to_vec() },
    ];
    let kept = deduplicate(&mut files, "sales", "sales_20240102_000000.sql");
    assert!(kept);
    assert_eq!(files.len(), 2);
}

#[test]
fn first_dump_of_a_target_is_kept() {
    let mut files = vec![
        FileEntry { name: "other_20240101_000000.sql".to_string(), content: b"x".to_vec() },
        FileEntry { name: "sales_20240102_000000.sql".to_string(), content: b"x".to_vec() },
    ];
    let kept = deduplicate(&mut files, "sales", "sales_20240102_000000.sql");
    assert!(kept);
    assert_eq!(files.len(), 2);
}

#[test]
fn bytes_identical_compares_contents() {
    assert!(bytes_identical(&b"abc".to_vec(), &b"abc".to_vec()));
    assert!(!bytes_identical(&b"abc".to_vec(), &b"abd".to_vec()));
    assert!(!bytes_identical(&b"abc".to_vec(), &b"ab".to_vec()));
    assert!(bytes_identical(&Vec::new(), &Vec::new()));
}

#[test]
fn executor_protocol_for_lock_sensitive_engine() {
    // standard attempt fails, fallback succeeds: the artifact is
    // produced by the fallback at the same output path, and no
    // cleanup of a partial file is ordered
    assert_eq!(first_attempt(&DbType::MariaDB), DumpAttempt::Standard);
    let after_failure = attempt_verdict(&DbType::MariaDB, DumpAttempt::Standard, false);
    assert_eq!(after_failure, AttemptVerdict::Retry(DumpAttempt::Fallback));
    let after_retry = attempt_verdict(&DbType::MariaDB, DumpAttempt::Fallback, true);
    assert_eq!(after_retry, AttemptVerdict::Produced);
}

#[test]
fn executor_protocol_failures() {
    assert_eq!(
        attempt_verdict(&DbType::MariaDB, DumpAttempt::Fallback, false),
        AttemptVerdict::FailedCleanup
    );
    assert_eq!(first_attempt(&DbType::PostgreSQL), DumpAttempt::Single);
    assert_eq!(
        attempt_verdict(&DbType::PostgreSQL, DumpAttempt::Single, false),
        AttemptVerdict::FailedCleanup
    );
    assert_eq!(
        attempt_verdict(&DbType::PostgreSQL, DumpAttempt::Single, true),
        AttemptVerdict::Produced
    );
}

#[test]
fn mysqldump_arguments() {
    let c = conn(Some("examplepass"));
    let args = mysqldump_args(&c, false);
    assert_eq!(
        args,
        vec!["-hlocalhost", "-P3306", "-uroot", "--column-statistics=0", "--skip-dump-date", "shop"]
    );
    let args_relaxed = mysqldump_args(&c, true);
    assert_eq!(
        args_relaxed,
        vec![
            "-hlocalhost",
            "-P3306",
            "-uroot",
            "--column-statistics=0",
            "--skip-dump-date",
            "--skip-lock-tables",
            "--single-transaction",
            "--quick",
            "shop"
        ]
    );
    // the secret never appears among the arguments
    assert!(args_relaxed.iter().all(|a| !a.contains("examplepass")));
}

#[test]
fn process_environments() {
    let with_pass = conn(Some("examplepass"));
    let env = mysql_env(&with_pass);
    assert_eq!(env.len(), 1);
    assert_eq!(env[0].0, "MYSQL_PWD");
    assert_eq!(env[0].1, "examplepass");
    assert!(mysql_env(&conn(None)).is_empty());

    let pg = pg_env(&with_pass);
    let pg_pairs: Vec<(&str, &str)> =
        pg.iter().map(|(k, v)| (k.as_str(), v.as_str())).collect();
    assert_eq!(
        pg_pairs,
        vec![
            ("PGHOST", "localhost"),
            ("PGPORT", "3306"),
            ("PGUSER", "root"),
            ("PGDATABASE", "shop"),
            ("PGPASSWORD", "examplepass")
        ]
    );
    assert_eq!(pg_env(&conn(None)).len(), 4);
}

#[test]
fn artifact_names() {
    let name = artifact_name("sales", "20240101_000000");
    assert_eq!(name, "sales_20240101_000000.sql");
    assert!(is_artifact_of("sales_20240101_000000.sql", "sales"));
    assert!(!is_artifact_of("sales_20240101_000000.sql", "other"));
    assert!(!is_artifact_of("sales_20240101_000000.txt", "sales"));
    assert!(!is_artifact_of("salesx20240101_000000.sql", "sales"));
    assert!(!is_artifact_of("sales", "sales"));
}

#[test]
fn latest_artifact_picks_greatest_matching_name() {
    let names = vec![
        "sales_20240102_000000.sql".to_string(),
        "other_20240109_000000.sql".to_string(),
        "sales_20240105_120000.sql".to_string(),
        "sales_20240103_000000.sql".to_string(),
        "notes.txt".to_string(),
    ];
    assert_eq!(latest_artifact(&names, "sales"), Some(2));
    assert_eq!(latest_artifact(&names, "missing"), None);
}

#[test]
fn find_db_index_by_id_and_name() {
    let dbs = vec![
        target("alpha", DbType::MariaDB, None, true),
        target("beta", DbType::PostgreSQL, None, true),
    ];
    assert_eq!(find_db_index("1", &dbs), Ok(0));
    assert_eq!(find_db_index("2", &dbs), Ok(1));
    assert_eq!(find_db_index("+2", &dbs), Ok(1));
    assert_eq!(find_db_index("beta", &dbs), Ok(1));
    assert_eq!(find_db_index("alpha", &dbs), Ok(0));
    assert_eq!(find_db_index("0", &dbs), Err(LookupError::NotFound));
    assert_eq!(find_db_index("3", &dbs), Err(LookupError::NotFound));
    assert_eq!(find_db_index("gamma", &dbs), Err(LookupError::NotFound));
}

#[test]
fn set_enabled_toggles_one_target() {
    let mut dbs = vec![
        target("alpha", DbType::MariaDB, None, true),
        target("beta", DbType::PostgreSQL, None, true),
    ];
    assert_eq!(set_enabled(&mut dbs, "beta", false), Ok(1));
    assert!(dbs[0].enabled);
    assert!(!dbs[1].enabled);
    assert_eq!(set_enabled(&mut dbs, "2", true), Ok(1));
    assert!(dbs[1].enabled);
    assert_eq!(set_enabled(&mut dbs, "nope", false), Err(LookupError::NotFound));
}

#[test]
fn schedule_presets() {
    assert_eq!(schedule_every_minute(), "0 * * * * *");
    assert_eq!(schedule_hourly(), "0 0 * * * *");
    assert_eq!(schedule_daily(7), "0 0 7 * * *");
    assert_eq!(schedule_daily(23), "0 0 23 * * *");
    assert_eq!(schedule_weekly(9, 0), "0 0 9 * * 0");
    assert_eq!(schedule_monthly(0, 15), "0 0 0 15 * *");
    assert_eq!(schedule_monthly(12, 1), "0 0 12 1 * *");
}

#[test]
fn defaults_and_labels() {
    assert!(default_enabled());
    assert_eq!(DbType::MariaDB.label(), "MariaDB");
    assert_eq!(DbType::PostgreSQL.label(), "PostgreSQL");
}
