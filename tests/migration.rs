use scurry::catalog::{calculate_available_versions, ScriptFile};
use scurry::error::{Inconsistency, ScurryError};
use scurry::executor::{Action, Event, Migrator, Stage};
use scurry::history::{
    choose_upgrade_path, get_history_differences, verify_common_history,
    versions_for_schema_level,
};
use scurry::models::ScurryMetadata;
use scurry::{from_sqlite, DesiredVersion, HistoryDifferences, Version};

fn date() -> chrono::NaiveDateTime {
    chrono::NaiveDate::from_ymd_opt(2024, 1, 1)
        .unwrap()
        .and_hms_opt(0, 0, 0)
        .unwrap()
}

fn version(v: &str, hash: &str) -> Version {
    Version {
        path: format!("migrations/{}__s.sql", v),
        name: "s".to_string(),
        hash: hash.to_string(),
        version: v.to_string(),
    }
}

fn row(id: i32, v: &str, hash: &str) -> ScurryMetadata {
    ScurryMetadata {
        id,
        migration_date: date(),
        script_hash: hash.to_string(),
        script_name: "s".to_string(),
        script_version: v.to_string(),
    }
}

fn catalog(versions: &[&str]) -> Vec<Version> {
    versions.iter().map(|v| version(v, &format!("h{}", v))).collect()
}

fn names(vs: &[Version]) -> Vec<String> {
    vs.iter().map(|v| v.version.clone()).collect()
}

/// A history table kept in memory, answering the executor's actions.
struct MemoryStore {
    rows: Vec<ScurryMetadata>,
    executed: Vec<String>,
    fail_on: Option<String>,
    actions: Vec<String>,
}

impl MemoryStore {
    fn new() -> MemoryStore {
        MemoryStore { rows: Vec::new(), executed: Vec::new(), fail_on: None, actions: Vec::new() }
    }

    fn history(&self) -> Vec<ScurryMetadata> {
        let mut rows: Vec<ScurryMetadata> = self
            .rows
            .iter()
            .map(|r| row(r.id, &r.script_version, &r.script_hash))
            .collect();
        rows.sort_by(|a, b| a.script_version.cmp(&b.script_version));
        rows
    }

    fn migrate(&mut self, available: &[Version], target: DesiredVersion, locking: bool) -> Result<usize, ScurryError> {
        let mut m = Migrator::new(available.to_vec(), target, locking);
        let mut action = m.start();
        loop {
            let event = match action {
                Action::EnsureTable => {
                    self.actions.push("ensure".to_string());
                    Event::Done
                }
                Action::LockTable => {
                    self.actions.push("lock".to_string());
                    Event::Done
                }
                Action::ReadHistory => {
                    self.actions.push("read".to_string());
                    Event::History(self.history())
                }
                Action::Apply(v) => {
                    self.actions.push(format!("apply {}", v.version));
                    if self.fail_on.as_deref() == Some(v.version.as_str()) {
                        Event::Failed(ScurryError::Sql("syntax error".to_string()))
                    } else {
                        self.executed.push(v.version.clone());
                        let id = self.rows.len() as i32 + 1;
                        self.rows.push(row(id, &v.version, &v.hash));
                        Event::Done
                    }
                }
                Action::Finished(n) => return Ok(n),
                Action::Aborted(e) => return Err(e),
            };
            assert!(m.accepts(&event));
            action = m.advance(event);
        }
    }

    fn mark(&mut self, available: &[Version], target: &DesiredVersion) {
        let level = versions_for_schema_level(available, target);
        self.rows.clear();
        for (i, v) in level.iter().enumerate() {
            self.rows.push(row(i as i32 + 1, &v.version, &v.hash));
        }
    }
}

#[test]
fn plan_from_watermark_to_specific_target() {
    let cat = catalog(&["001", "002", "003", "004", "005"]);
    let installed = row(3, "003", "h003");
    let plan = choose_upgrade_path(&cat, &Some(&installed), &DesiredVersion::Specific("004".to_string()));
    assert_eq!(names(&plan), vec!["004"]);
}

#[test]
fn plan_from_watermark_to_latest() {
    let cat = catalog(&["001", "002", "003", "004", "005"]);
    let installed = row(3, "003", "h003");
    let plan = choose_upgrade_path(&cat, &Some(&installed), &DesiredVersion::Latest);
    assert_eq!(names(&plan), vec!["004", "005"]);
}

#[test]
fn plan_without_watermark_takes_everything_up_to_target() {
    let cat = catalog(&["001", "002", "003"]);
    let plan = choose_upgrade_path(&cat, &None, &DesiredVersion::Specific("002".to_string()));
    assert_eq!(names(&plan), vec!["001", "002"]);
    let all = choose_upgrade_path(&cat, &None, &DesiredVersion::Latest);
    assert_eq!(names(&all), vec!["001", "002", "003"]);
}

#[test]
fn plan_below_watermark_is_empty() {
    let cat = catalog(&["001", "002", "003"]);
    let installed = row(3, "003", "h003");
    let plan = choose_upgrade_path(&cat, &Some(&installed), &DesiredVersion::Specific("001".to_string()));
    assert!(plan.is_empty());
}

#[test]
fn diff_reports_hash_mismatch_and_missing() {
    let cat = catalog(&["001", "002", "003"]);
    let hist = vec![row(1, "001", "h001"), row(2, "002", "other")];
    let diff = get_history_differences(&cat, &hist);
    assert_eq!(diff.len(), 2);
    assert!(matches!(&diff[0], HistoryDifferences::HashMismatch(v) if v.version == "002"));
    assert!(matches!(&diff[1], HistoryDifferences::Missing(v) if v.version == "003"));
}

#[test]
fn diff_reports_version_mismatch() {
    let cat = catalog(&["001", "002"]);
    let hist = vec![row(1, "001", "h001"), row(2, "005", "h002")];
    let diff = get_history_differences(&cat, &hist);
    assert_eq!(diff.len(), 1);
    assert!(matches!(&diff[0], HistoryDifferences::VersionMismatch(v) if v.version == "002"));
}

#[test]
fn diff_of_matching_history_is_empty() {
    let cat = catalog(&["001", "002"]);
    let hist = vec![row(1, "001", "h001"), row(2, "002", "h002")];
    assert!(get_history_differences(&cat, &hist).is_empty());
}

#[test]
fn validation_accepts_a_prefix() {
    let cat = catalog(&["001", "002", "003"]);
    assert!(verify_common_history(&cat, &[row(1, "001", "h001")]).is_ok());
    assert!(verify_common_history(&cat, &[]).is_ok());
}

#[test]
fn validation_reports_version_mismatch() {
    let cat = catalog(&["001", "002"]);
    let r = verify_common_history(&cat, &[row(1, "001", "h001"), row(2, "003", "h003")]);
    match r {
        Err(ScurryError::Consistency(Inconsistency::VersionMismatch { installed, available })) => {
            assert_eq!(installed, "003");
            assert_eq!(available, "002");
        }
        other => panic!("unexpected {:?}", other),
    }
}

#[test]
fn validation_reports_hash_mismatch() {
    let cat = catalog(&["001", "002"]);
    let r = verify_common_history(&cat, &[row(1, "001", "edited")]);
    match r {
        Err(ScurryError::Consistency(Inconsistency::HashMismatch { version, installed_hash, available_hash })) => {
            assert_eq!(version, "001");
            assert_eq!(installed_hash, "edited");
            assert_eq!(available_hash, "h001");
        }
        other => panic!("unexpected {:?}", other),
    }
}

#[test]
fn validation_reports_schema_ahead_of_catalog() {
    let cat = catalog(&["001"]);
    let r = verify_common_history(&cat, &[row(1, "001", "h001"), row(2, "002", "h002")]);
    match r {
        Err(ScurryError::Consistency(Inconsistency::UnknownVersion { version })) => {
            assert_eq!(version, "002");
        }
        other => panic!("unexpected {:?}", other),
    }
}

#[test]
fn migrate_latest_twice_applies_nothing_the_second_time() {
    let cat = catalog(&["001", "002", "003"]);
    let mut store = MemoryStore::new();
    assert_eq!(store.migrate(&cat, DesiredVersion::Latest, true).unwrap(), 3);
    assert_eq!(store.migrate(&cat, DesiredVersion::Latest, true).unwrap(), 0);
    assert_eq!(store.executed, vec!["001", "002", "003"]);
}

#[test]
fn applied_versions_come_back_from_history() {
    let cat = catalog(&["001", "002", "003"]);
    let mut store = MemoryStore::new();
    for v in ["001", "002", "003"] {
        assert_eq!(store.migrate(&cat, DesiredVersion::Specific(v.to_string()), false).unwrap(), 1);
    }
    let hist = store.history();
    let got: Vec<(String, String)> =
        hist.iter().map(|r| (r.script_version.clone(), r.script_hash.clone())).collect();
    let want: Vec<(String, String)> =
        cat.iter().map(|v| (v.version.clone(), v.hash.clone())).collect();
    assert_eq!(got, want);
}

#[test]
fn edited_script_stops_the_next_migration() {
    let file = |name: &str, body: &str| ScriptFile {
        path: Some(format!("m/{}", name)),
        file_name: name.to_string(),
        contents: body.as_bytes().to_vec(),
    };
    let before = calculate_available_versions(&[file("001__a.sql", "create table a();")]).unwrap();
    let mut store = MemoryStore::new();
    assert_eq!(store.migrate(&before, DesiredVersion::Latest, true).unwrap(), 1);
    let after = calculate_available_versions(&[
        file("001__a.sql", "create table a(id int);"),
        file("002__b.sql", "create table b();"),
    ])
    .unwrap();
    let r = store.migrate(&after, DesiredVersion::Latest, true);
    assert!(matches!(
        r,
        Err(ScurryError::Consistency(Inconsistency::HashMismatch { .. }))
    ));
    assert_eq!(store.executed, vec!["001"]);
    assert_eq!(store.rows.len(), 1);
}

#[test]
fn marking_writes_history_without_running_scripts() {
    let cat = catalog(&["001", "002", "003", "004"]);
    let mut store = MemoryStore::new();
    store.mark(&cat, &DesiredVersion::Specific("003".to_string()));
    let got: Vec<String> = store.history().iter().map(|r| r.script_version.clone()).collect();
    assert_eq!(got, vec!["001", "002", "003"]);
    assert!(store.executed.is_empty());
    assert_eq!(store.migrate(&cat, DesiredVersion::Specific("003".to_string()), true).unwrap(), 0);
    assert!(store.executed.is_empty());
}

#[test]
fn marking_replaces_the_whole_history() {
    let cat = catalog(&["001", "002", "003"]);
    let mut store = MemoryStore::new();
    store.rows.push(row(1, "009", "zzz"));
    store.mark(&cat, &DesiredVersion::Latest);
    let got: Vec<String> = store.history().iter().map(|r| r.script_version.clone()).collect();
    assert_eq!(got, vec!["001", "002", "003"]);
}

#[test]
fn locking_backend_locks_before_reading() {
    let cat = catalog(&["001"]);
    let mut store = MemoryStore::new();
    store.migrate(&cat, DesiredVersion::Latest, true).unwrap();
    assert_eq!(store.actions, vec!["ensure", "lock", "read", "apply 001"]);
}

#[test]
fn backend_without_locks_skips_the_lock() {
    let cat = catalog(&["001"]);
    let mut store = MemoryStore::new();
    store.migrate(&cat, DesiredVersion::Latest, false).unwrap();
    assert_eq!(store.actions, vec!["ensure", "read", "apply 001"]);
}

#[test]
fn failed_script_keeps_earlier_ones() {
    let cat = catalog(&["001", "002", "003"]);
    let mut store = MemoryStore::new();
    store.fail_on = Some("002".to_string());
    let r = store.migrate(&cat, DesiredVersion::Latest, true);
    assert!(matches!(r, Err(ScurryError::Sql(_))));
    assert_eq!(store.executed, vec!["001"]);
    assert_eq!(store.rows.len(), 1);
    store.fail_on = None;
    assert_eq!(store.migrate(&cat, DesiredVersion::Latest, true).unwrap(), 2);
}

#[test]
fn inconsistent_history_applies_nothing() {
    let cat = catalog(&["001", "002"]);
    let mut store = MemoryStore::new();
    store.rows.push(row(1, "000", "h000"));
    let r = store.migrate(&cat, DesiredVersion::Latest, true);
    assert!(matches!(
        r,
        Err(ScurryError::Consistency(Inconsistency::VersionMismatch { .. }))
    ));
    assert!(store.executed.is_empty());
}

#[test]
fn migrator_takes_only_answers_to_its_last_action() {
    let mut m = Migrator::new(catalog(&["001"]), DesiredVersion::Latest, false);
    assert!(!m.accepts(&Event::Done));
    assert!(matches!(m.start(), Action::EnsureTable));
    assert!(m.accepts(&Event::Done));
    assert!(!m.accepts(&Event::History(Vec::new())));
    assert!(matches!(m.advance(Event::Done), Action::ReadHistory));
    assert!(m.accepts(&Event::History(Vec::new())));
    assert!(!m.accepts(&Event::Done));
    assert!(matches!(m.advance(Event::History(Vec::new())), Action::Apply(_)));
    assert!(matches!(m.advance(Event::Done), Action::Finished(1)));
    assert_eq!(m.stage, Stage::Stopped);
    assert!(!m.accepts(&Event::Failed(ScurryError::Sql(String::new()))));
}

#[test]
fn sqlite_session_keeps_its_directory() {
    let conn = rusqlite::Connection::open_in_memory().unwrap();
    let s = from_sqlite(conn, "db/migrations");
    assert_eq!(s.migrations_dir, "db/migrations");
    assert!(!s.supports_locking());
}

#[test]
fn inconsistency_messages_name_what_differs() {
    let a = Inconsistency::VersionMismatch { installed: "003".to_string(), available: "002".to_string() };
    assert_eq!(a.message(), "Version mismatch: 003 != 002");
    let b = Inconsistency::HashMismatch {
        version: "001".to_string(),
        installed_hash: "aa".to_string(),
        available_hash: "bb".to_string(),
    };
    assert_eq!(b.message(), "Version hash mismatch for version 001: aa != bb");
    let c = Inconsistency::UnknownVersion { version: "009".to_string() };
    assert_eq!(c.message(), "Schema contains unknown version 009");
}
