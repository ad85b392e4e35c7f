//! The rules of the store that need no database.

use diesel::result::{DatabaseErrorKind, Error as DieselError};
use sqlite_storage::app_state::latest_key_answer;
use sqlite_storage::config::{SqliteStoreConfig, Synchronous, Timeout};
use sqlite_storage::error::{
    commit_barrier_error, is_retriable_sqlite_error, missing_device, CommitBarrierError, Fault,
    StoreError,
};
use sqlite_storage::keys::{array32, array64, deserialize_keypair, serialize_keypair, KeyPair};
use sqlite_storage::load::{summarize, AccountRow};
use sqlite_storage::location::{
    eq_ignore_ascii_case, filesystem_path, is_shared_cache, parse_database_path, percent_decode,
};
use sqlite_storage::open::{
    reader_refusal, OpenAction, OpenEvent, OpenPhase, OpenStep, Opening,
};
use sqlite_storage::plan::{both, either, equals, owned_by, Guard, Lane, Source};
use sqlite_storage::registry::{
    decoded_record, device_registry_row_to_record, registry_answer, DeviceListRecord,
};
use sqlite_storage::retry::{Attempted, Next, QueuedRun};
use sqlite_storage::rows::{
    first_blob, first_int, is_null, read_blob, read_flag, read_int, read_opt_blob, read_opt_int,
    read_opt_text, read_text,
};
use sqlite_storage::schema::{Column, Table};
use sqlite_storage::secrets::MsgSecretEntry;
use sqlite_storage::sql::{Assignment, Cond, Expr, Order, Query, Statement, Want};
use sqlite_storage::store::{Passage, ReadRoute, SqliteStore};
use sqlite_storage::upkeep::{
    pragma_i64, sanitize_snapshot_name, AfterChore, Chore, ChoreResult, Readings,
    StorageResourceReport,
};
use sqlite_storage::value::Value;

fn database_error(message: &str) -> DieselError {
    DieselError::DatabaseError(DatabaseErrorKind::Unknown, Box::new(message.to_string()))
}

fn store(pool_size: u32, readers: Option<u32>, snapshot_safe: bool) -> SqliteStore {
    SqliteStore {
        device_id: 1,
        database_path: "/tmp/db.sqlite".to_string(),
        pool_size,
        readers,
        snapshot_safe,
        incremental_vacuum: false,
        incremental_vacuum_pages: 400,
    }
}

// ---------------------------------------------------------------------------------------
// Errors and retries

#[test]
fn only_busy_and_locked_database_errors_are_retriable() {
    let busy = database_error("database is busy");
    let locked = database_error("database table is locked");
    let syntax = database_error("near SELECT: syntax error");
    assert!(is_retriable_sqlite_error(&busy));
    assert!(is_retriable_sqlite_error(&locked));
    assert!(!is_retriable_sqlite_error(&syntax));
}

#[test]
fn database_errors_are_told_apart() {
    assert!(matches!(Fault::of(&DieselError::NotFound), Fault::NotFound));
    let busy = Fault::of(&database_error("database is busy"));
    assert!(matches!(&busy, Fault::Unknown(m) if m == "database is busy"));
    let unique = DieselError::DatabaseError(
        DatabaseErrorKind::UniqueViolation,
        Box::new("a locked key".to_string()),
    );
    let unique = Fault::of(&unique);
    assert!(matches!(&unique, Fault::Other(m) if m == "a locked key"));
    assert!(!unique.is_retriable());
    assert!(!is_retriable_sqlite_error(&DieselError::NotFound));
}

#[test]
fn a_missing_account_is_named() {
    let e = missing_device(StoreError::Database(Fault::NotFound), 7);
    assert!(matches!(e, StoreError::DeviceNotFound(7)));
    let e = missing_device(StoreError::Database(Fault::Other("x".to_string())), 7);
    assert!(matches!(e, StoreError::Database(Fault::Other(m)) if m == "x"));
}

#[test]
fn errors_say_what_happened() {
    assert_eq!(StoreError::Connection("c".to_string()).message(), "c");
    assert_eq!(StoreError::Database(Fault::NotFound).message(), "Record not found");
    assert_eq!(StoreError::Database(Fault::Unknown("u".to_string())).message(), "u");
    assert_eq!(StoreError::Database(Fault::Other("o".to_string())).message(), "o");
    let barrier = commit_barrier_error(StoreError::InvalidConfig("hook".to_string()));
    assert_eq!(barrier.message(), "post-commit durability barrier failed");
    match barrier {
        StoreError::CommitBarrier(CommitBarrierError(source)) => {
            assert_eq!(source.message(), "hook");
        }
        _ => panic!("not a barrier error"),
    }
    assert_eq!(StoreError::DeviceNotFound(-3).message(), "no account with the id -3");
    assert_eq!(StoreError::Migration("m".to_string()).message(), "m");
    assert_eq!(StoreError::Serialization("s".to_string()).message(), "s");
    assert_eq!(StoreError::Validation("v".to_string()).message(), "v");
}

#[test]
fn contention_is_ridden_out_for_six_attempts() {
    let mut run = QueuedRun::retried("save", true);
    let mut pauses = Vec::new();
    let mut warnings = Vec::new();
    let error = loop {
        match run.after(Attempted::Faulted(Fault::Unknown("database is locked".to_string()))) {
            Next::Retry { run: next, delay_ms, warning } => {
                pauses.push(delay_ms);
                warnings.push(warning);
                run = next;
            }
            Next::Fail(error) => break error,
            _ => panic!("an attempt that failed did not succeed"),
        }
    };
    assert_eq!(pauses, vec![10, 20, 40, 80, 160]);
    assert_eq!(pauses.iter().sum::<u64>(), 310);
    assert_eq!(warnings[0], None);
    assert_eq!(
        warnings[1].as_deref(),
        Some("save busy/locked, retry 2/6 in 20ms: database is locked")
    );
    assert!(matches!(error, StoreError::Database(Fault::Unknown(_))));
}

#[test]
fn a_success_waits_for_the_barrier() {
    let run = QueuedRun::retried("save", true);
    assert!(matches!(run.after(Attempted::Done), Next::AwaitBarrier));
    assert!(matches!(QueuedRun::retried("load", false).after(Attempted::Done), Next::Succeed));
    assert!(matches!(QueuedRun::once().after(Attempted::Done), Next::AwaitBarrier));
    assert_eq!(QueuedRun::of_write(Lane::Once).retries, 0);
    let run = QueuedRun::of_write(Lane::Retried("save"));
    assert_eq!((run.op, run.retries, run.barrier), ("save", 5, true));
    let once = QueuedRun::once();
    let busy = Attempted::Faulted(Fault::Unknown("database is busy".to_string()));
    assert!(matches!(once.after(busy), Next::Fail(StoreError::Database(_))));
    let no_connection = StoreError::Connection("none".to_string());
    let failed = QueuedRun::retried("save", true).after(Attempted::Failed(no_connection));
    assert!(matches!(failed, Next::Fail(StoreError::Connection(_))));
    assert!(matches!(QueuedRun::once().after_barrier(None), Next::Succeed));
    let broken = StoreError::InvalidConfig("disk".to_string());
    let failed = QueuedRun::once().after_barrier(Some(broken));
    assert!(matches!(failed, Next::Fail(StoreError::CommitBarrier(_))));
}

// ---------------------------------------------------------------------------------------
// Locations

#[test]
fn test_parse_database_path_regular_path() {
    let result = parse_database_path("/var/lib/whatsapp/database.db").unwrap();
    assert_eq!(result, "/var/lib/whatsapp/database.db");
}

#[test]
fn test_parse_database_path_with_sqlite_prefix() {
    let result = parse_database_path("sqlite:///var/lib/whatsapp/database.db").unwrap();
    assert_eq!(result, "/var/lib/whatsapp/database.db");
}

#[test]
fn test_parse_database_path_with_query_params() {
    let result = parse_database_path("file:database.db?mode=memory&cache=shared").unwrap();
    assert_eq!(result, "file:database.db");
}

#[test]
fn test_parse_database_path_with_fragment() {
    let result = parse_database_path("file:database.db#fragment").unwrap();
    assert_eq!(result, "file:database.db");
}

#[test]
fn test_parse_database_path_with_both_query_and_fragment() {
    let result = parse_database_path("sqlite:///var/lib/database.db?mode=ro#backup").unwrap();
    assert_eq!(result, "/var/lib/database.db");
}

#[test]
fn test_parse_database_path_in_memory_rejected() {
    let result = parse_database_path(":memory:");
    assert!(result.is_err());
    assert!(result.unwrap_err().message().contains("not supported"));
}

#[test]
fn test_parse_database_path_in_memory_with_query_rejected() {
    let result = parse_database_path(":memory:?cache=shared");
    assert!(result.is_err());
    assert!(result.unwrap_err().message().contains("not supported"));
}

#[test]
fn every_scheme_in_front_is_dropped() {
    assert_eq!(parse_database_path("sqlite://sqlite://a").unwrap(), "a");
    assert_eq!(parse_database_path("sqlite:a").unwrap(), "sqlite:a");
    assert!(parse_database_path("sqlite://:memory:").is_err());
}

#[test]
fn the_wal_sidecar_is_looked_up_beside_the_file_the_uri_names() {
    assert_eq!(filesystem_path("/tmp/db.sqlite"), "/tmp/db.sqlite");
    assert_eq!(filesystem_path("db.sqlite"), "db.sqlite");
    assert_eq!(filesystem_path("file:db.sqlite"), "db.sqlite");
    assert_eq!(filesystem_path("file:/tmp/db.sqlite"), "/tmp/db.sqlite");
    assert_eq!(filesystem_path("file:///tmp/db.sqlite"), "/tmp/db.sqlite");
    assert_eq!(filesystem_path("file://localhost/tmp/db.sqlite"), "/tmp/db.sqlite");
    assert_eq!(filesystem_path("file:/tmp/my%20db.sqlite"), "/tmp/my db.sqlite");
    assert_eq!(filesystem_path("file:///tmp/a%2Fb%3Fc.sqlite"), "/tmp/a/b?c.sqlite");
    assert_eq!(filesystem_path("/tmp/my%20db.sqlite"), "/tmp/my%20db.sqlite");
    assert_eq!(filesystem_path("file:/tmp/100%.sqlite"), "/tmp/100%.sqlite");
    assert_eq!(filesystem_path("file:/tmp/a%2.sqlite"), "/tmp/a%2.sqlite");
}

#[test]
fn escapes_that_are_no_text_are_left_alone() {
    assert_eq!(percent_decode("caf%C3%A9"), "caf\u{e9}");
    assert_eq!(percent_decode("caf%C3"), "caf%C3");
    assert_eq!(percent_decode("%41%7a%4A"), "AzJ");
    assert_eq!(percent_decode("caf\u{e9}"), "caf\u{e9}");
    assert_eq!(percent_decode(""), "");
}

#[test]
fn a_shared_cache_is_asked_for_in_the_query() {
    assert!(is_shared_cache("file:a.db?mode=memory&cache=shared"));
    assert!(is_shared_cache("file:a.db?cache=SHARED#x"));
    assert!(!is_shared_cache("file:a.db?cache=private&cache=shared"));
    assert!(!is_shared_cache("a.db?cache=shared"));
    assert!(!is_shared_cache("file:a.db#cache=shared"));
    assert!(!is_shared_cache("file:a.db"));
    assert!(eq_ignore_ascii_case("WaL", "wal"));
    assert!(!eq_ignore_ascii_case("wall", "wal"));
}

// ---------------------------------------------------------------------------------------
// Configuration and opening

#[test]
fn mmap_size_config_is_opt_in() {
    assert_eq!(SqliteStoreConfig::default().mmap_size, None);
    assert_eq!(
        SqliteStoreConfig::default().with_mmap_size(64 * 1024 * 1024).mmap_size,
        Some(64 * 1024 * 1024)
    );
}

#[test]
fn every_connection_is_set_up_the_same_way() {
    let config = SqliteStoreConfig::default();
    assert_eq!(
        config.connection_options(false).pragmas(),
        vec![
            "PRAGMA busy_timeout = 30000;",
            "PRAGMA synchronous = NORMAL;",
            "PRAGMA cache_size = -512;",
            "PRAGMA temp_store = memory;",
            "PRAGMA foreign_keys = ON;",
            "PRAGMA journal_size_limit = 33554432;",
        ]
    );
    let config = SqliteStoreConfig { synchronous: Synchronous::Full, ..config };
    let reader = config.with_mmap_size(4096).connection_options(true).pragmas();
    assert_eq!(reader[1], "PRAGMA synchronous = FULL;");
    assert_eq!(reader[6], "PRAGMA mmap_size = 4096;");
    assert_eq!(reader[7], "PRAGMA query_only = 1;");
    assert_eq!(config.with_mmap_size(0).connection_options(false).pragmas().len(), 6);
    assert_eq!(Synchronous::Off.as_pragma(), "OFF");
}

#[test]
fn a_timeout_is_rounded_up_to_one_and_capped() {
    assert_eq!(Timeout { secs: 0, nanos: 0 }.busy_timeout_ms(), 0);
    assert_eq!(Timeout { secs: 0, nanos: 1 }.busy_timeout_ms(), 1);
    assert_eq!(Timeout { secs: 1, nanos: 2_500_000 }.busy_timeout_ms(), 1002);
    assert_eq!(Timeout { secs: u64::MAX, nanos: 0 }.busy_timeout_ms(), 2_147_483_647);
}

#[test]
fn a_zero_batch_leaves_vacuuming_off() {
    assert!(!SqliteStoreConfig::default().with_incremental_vacuum(0).incremental_vacuum);
    let config = SqliteStoreConfig::default().with_incremental_vacuum(100);
    assert!(config.incremental_vacuum);
    assert_eq!(config.incremental_vacuum_pages, 100);
    assert_eq!(config.with_read_pool_size(3).read_pool_size, 3);
}

#[test]
fn readers_need_a_log_of_their_own() {
    assert_eq!(reader_refusal(false, "wal", "a.db"), None);
    assert_eq!(reader_refusal(false, "WAL", "a.db"), None);
    assert_eq!(
        reader_refusal(false, "memory", "a.db").as_deref(),
        Some("journal_mode is 'memory', not WAL")
    );
    assert!(reader_refusal(false, "wal", "file:a?cache=shared").is_some());
    assert!(reader_refusal(true, "wal", "a.db").is_some());
}

#[test]
fn a_plain_database_opens_with_readers() {
    let config = SqliteStoreConfig::default().with_read_pool_size(2);
    let step = Opening::start("sqlite:///tmp/a.db", 5, config, false, false);
    assert!(matches!(step.action, OpenAction::OpenPool { size: 1, options } if !options.query_only));
    let step = step.opening.next(OpenEvent::Done);
    assert_eq!(step.action.sql(), Some("PRAGMA journal_mode = WAL;"));
    let step = step.opening.next(OpenEvent::JournalMode("wal".to_string()));
    assert!(matches!(step.action, OpenAction::Migrate));
    let step = step.opening.next(OpenEvent::Done);
    assert!(
        matches!(step.action, OpenAction::OpenReaders { size: 2, options } if options.query_only)
    );
    match step.opening.next(OpenEvent::Done).action {
        OpenAction::Ready(store) => {
            assert_eq!(store.device_id, 5);
            assert_eq!(store.database_path, "/tmp/a.db");
            assert_eq!(store.readers, Some(2));
            assert!(store.snapshot_safe);
            assert_eq!(store.read_route(), ReadRoute::Snapshot);
        }
        _ => panic!("not ready"),
    }
}

/// The steps of an opening, each ended by what it is told.
fn opened(url: &str, config: SqliteStoreConfig, mode: &str, pages: i64) -> (Vec<OpenPhase>, OpenStep) {
    let mut step = Opening::start(url, 1, config, true, false);
    let mut phases = Vec::new();
    loop {
        phases.push(step.opening.phase);
        let event = match &step.action {
            OpenAction::QueryPageCount => OpenEvent::PageCount(pages),
            OpenAction::SetWal => OpenEvent::JournalMode(mode.to_string()),
            OpenAction::Ready(_) | OpenAction::Fail(_) => break,
            _ => OpenEvent::Done,
        };
        step = step.opening.next(event);
    }
    (phases, step)
}

#[test]
fn the_vacuum_mode_is_set_on_an_empty_database_only() {
    let config = SqliteStoreConfig::default().with_incremental_vacuum(10);
    let (phases, step) = opened("a.db", config, "wal", 0);
    assert!(phases.contains(&OpenPhase::AutoVacuum));
    assert!(phases.contains(&OpenPhase::Barrier));
    assert!(matches!(step.action, OpenAction::Ready(s) if s.incremental_vacuum));
    let (phases, _) = opened("a.db", config, "wal", 4);
    assert!(!phases.contains(&OpenPhase::AutoVacuum));
    let (phases, _) = opened("a.db", SqliteStoreConfig::default(), "wal", 0);
    assert!(!phases.contains(&OpenPhase::PageCount));
}

#[test]
fn a_database_without_a_log_has_no_readers() {
    let config = SqliteStoreConfig { pool_size: 0, ..SqliteStoreConfig::default() };
    let (phases, step) = opened("file:m?mode=memory", config, "memory", 0);
    assert!(!phases.contains(&OpenPhase::Readers));
    match step.action {
        OpenAction::Ready(store) => {
            assert_eq!(store.readers, None);
            assert_eq!(store.pool_size, 1);
            assert_eq!(store.read_route(), ReadRoute::Connection);
        }
        _ => panic!("not ready"),
    }
    let (_, step) = opened(":memory:", config, "memory", 0);
    assert!(matches!(step.action, OpenAction::Fail(StoreError::InvalidConfig(_))));
}

#[test]
fn a_failed_step_ends_the_opening() {
    let step = Opening::start("a.db", 1, SqliteStoreConfig::default(), false, false);
    let error = StoreError::Migration("m".to_string());
    let step = step.opening.next(OpenEvent::Failed(error));
    assert!(matches!(step.action, OpenAction::Fail(StoreError::Migration(_))));
    assert_eq!(step.action.sql(), None);
    let mut step = Opening::start("a.db", 1, SqliteStoreConfig::default(), true, false);
    step.opening.phase = OpenPhase::Barrier;
    let error = StoreError::Connection("disk".to_string());
    let step = step.opening.next(OpenEvent::Failed(error));
    assert!(matches!(step.action, OpenAction::Fail(StoreError::CommitBarrier(_))));
}

#[test]
fn reads_are_routed_by_what_is_safe() {
    assert_eq!(store(1, Some(1), true).read_route(), ReadRoute::Snapshot);
    assert_eq!(store(4, None, true).read_route(), ReadRoute::Snapshot);
    assert_eq!(store(4, None, false).read_route(), ReadRoute::Permit);
    assert_eq!(store(1, None, true).read_route(), ReadRoute::Connection);
    let plain = store(1, None, true);
    assert!(matches!(plain.passage(Source::Reader), Passage::Connection));
    assert!(matches!(plain.passage(Source::Queue), Passage::Permit));
    assert!(
        matches!(plain.passage(Source::QueueRetried("r")), Passage::Queued(run) if !run.barrier)
    );
    assert!(matches!(store(4, None, false).passage(Source::Reader), Passage::Permit));
    assert!(matches!(store(1, Some(1), true).passage(Source::Reader), Passage::Snapshot));
    let sibling = store(4, None, true).share_for_device(9);
    assert_eq!(sibling.device_id(), 9);
    assert_eq!(sibling.pool_size, 4);
    assert_eq!(sibling.database_path, "/tmp/db.sqlite");
}

// ---------------------------------------------------------------------------------------
// Upkeep

#[test]
fn a_snapshot_gets_a_plain_name_beside_the_database() {
    let store = store(1, None, false);
    let snapshot = store.snapshot_db("before/../update 1", 1700000000).unwrap();
    let path = "/tmp/db.sqlite.snapshot-1700000000-before_._update_1";
    assert_eq!(snapshot.sql, format!("VACUUM INTO '{path}'"));
    assert_eq!(snapshot.extra_path, format!("{path}.json"));
    assert_eq!(sanitize_snapshot_name("a.b-c_D9").unwrap(), "a.b-c_D9");
    let empty = store.snapshot_db("..", 1).unwrap_err();
    assert_eq!(empty.message(), "Snapshot name cannot be empty after sanitization");
    let long = store.snapshot_db(&"x".repeat(101), 1).unwrap_err();
    assert_eq!(long.message(), "Snapshot name exceeds maximum length of 100 characters");
    assert!(store.snapshot_db(&"x".repeat(100), 1).is_ok());
}

#[test]
fn a_quote_in_the_path_is_doubled() {
    let mut store = store(1, None, false);
    store.database_path = "/tmp/it's.db".to_string();
    let snapshot = store.snapshot_db("n", -5).unwrap();
    assert_eq!(snapshot.sql, "VACUUM INTO '/tmp/it''s.db.snapshot--5-n'");
    assert_eq!(snapshot.extra_path, "/tmp/it's.db.snapshot--5-n.json");
}

#[test]
fn maintenance_goes_through_its_chores() {
    let mut store = store(1, None, false);
    let (lane, first) = store.maintenance();
    assert!(matches!(lane, Lane::Retried("maintenance")));
    assert_eq!(first.sql(), "PRAGMA analysis_limit = 400;");
    let next = |store: &SqliteStore, chore, result| match store.after_chore(chore, result) {
        AfterChore::Run(chore) => Some(chore),
        AfterChore::Finish => None,
        AfterChore::Fail(_) => panic!("failed"),
    };
    let optimize = next(&store, first, ChoreResult::Done).unwrap();
    assert_eq!(optimize.sql(), "PRAGMA optimize;");
    let checkpoint = next(&store, optimize, ChoreResult::Done).unwrap();
    assert_eq!(checkpoint.sql(), "PRAGMA wal_checkpoint(TRUNCATE);");
    assert_eq!(next(&store, checkpoint, ChoreResult::Done), None);

    store.incremental_vacuum = true;
    let busy = || Fault::Unknown("database is locked".to_string());
    let mode = next(&store, checkpoint, ChoreResult::Faulted(busy())).unwrap();
    assert_eq!(mode, Chore::QueryMode);
    assert_eq!(mode.sql(), "PRAGMA auto_vacuum;");
    assert_eq!(next(&store, mode, ChoreResult::Mode(0)), None);
    let reclaim = next(&store, mode, ChoreResult::Mode(2)).unwrap();
    assert_eq!(reclaim.sql(), "PRAGMA incremental_vacuum(400);");
    assert_eq!(next(&store, reclaim, ChoreResult::Done), None);
    let failed = store.after_chore(optimize, ChoreResult::Faulted(busy()));
    assert!(matches!(failed, AfterChore::Fail(Fault::Unknown(_))));
    store.incremental_vacuum_pages = 0;
    assert_eq!(next(&store, mode, ChoreResult::Mode(2)), None);
}

#[test]
fn the_report_counts_every_open_connection() {
    let readings = Readings {
        page_size: Some(4096),
        page_count: Some(1000),
        cache_size: Some(-512),
        freelist_count: Some(7),
        wal_bytes: Some(99),
        write_connections: 0,
        read_connections: 2,
    };
    let report = StorageResourceReport::of(readings);
    assert_eq!(report.memory_bytes, Some(3 * 512 * 1024));
    assert_eq!(report.pages, Some(1000));
    assert_eq!(report.free_pages, Some(7));
    assert_eq!(report.wal_bytes, Some(99));
    let small = StorageResourceReport::of(Readings { page_count: Some(10), ..readings });
    assert_eq!(small.memory_bytes, Some(3 * 40960));
    let in_pages = StorageResourceReport::of(Readings { cache_size: Some(2), ..readings });
    assert_eq!(in_pages.memory_bytes, Some(3 * 8192));
    let odd = StorageResourceReport::of(Readings {
        page_size: Some(i64::MAX),
        page_count: Some(i64::MAX),
        cache_size: Some(i64::MIN),
        freelist_count: Some(-1),
        ..readings
    });
    assert_eq!(odd.memory_bytes, Some(u64::MAX));
    assert_eq!(odd.free_pages, Some(0));
    let none = StorageResourceReport::of(Readings { page_size: None, ..readings });
    assert_eq!(none, StorageResourceReport::unknown());
}

#[test]
fn a_pragma_is_read_by_a_bare_name() {
    assert_eq!(
        pragma_i64("page_count").as_deref(),
        Some("SELECT page_count AS value FROM pragma_page_count()")
    );
    assert_eq!(pragma_i64(""), None);
    assert_eq!(pragma_i64("a; b"), None);
}

#[test]
fn the_log_lies_beside_the_database() {
    let mut store = store(1, None, false);
    assert_eq!(store.wal_path(), "/tmp/db.sqlite-wal");
    store.database_path = "file:/tmp/my%20db.sqlite".to_string();
    assert_eq!(store.wal_path(), "/tmp/my db.sqlite-wal");
}

// ---------------------------------------------------------------------------------------
// Keys, rows and statements

#[test]
fn key_pairs_are_stored_private_part_first() {
    let pair = KeyPair { private_key: [1; 32], public_key: [2; 32] };
    let bytes = serialize_keypair(&pair);
    assert_eq!(bytes[..32], [1; 32]);
    assert_eq!(bytes[32..], [2; 32]);
    let back = deserialize_keypair(&bytes).unwrap();
    assert_eq!(back.private_key, pair.private_key);
    assert_eq!(back.public_key, pair.public_key);
    assert!(matches!(deserialize_keypair(&bytes[..63]), Err(StoreError::Validation(_))));
    assert_eq!(array32(&[3; 32]), Some([3; 32]));
    assert_eq!(array32(&[3; 31]), None);
    assert_eq!(array64(&[4; 64]), Some([4; 64]));
    assert_eq!(array64(&[4; 65]), None);
}

#[test]
fn columns_are_read_by_their_type() {
    let row = vec![
        Value::Int(5),
        Value::Text("t".to_string()),
        Value::Blob(vec![1]),
        Value::Null,
    ];
    assert_eq!(read_int(&row, 0).unwrap(), 5);
    assert_eq!(read_text(&row, 1).unwrap(), "t");
    assert_eq!(read_blob(&row, 2).unwrap(), vec![1]);
    assert_eq!(read_int(&row, 1).unwrap(), 0);
    assert_eq!(read_text(&row, 0).unwrap(), "5");
    assert_eq!(read_blob(&row, 1).unwrap(), b"t".to_vec());
    assert!(read_int(&row, 3).is_err());
    assert!(read_text(&row, 3).is_err());
    assert!(read_text(&row, 9).is_err());
    assert!(read_blob(&row, 3).is_err());
    assert!(is_null(&row, 3));
    assert!(!is_null(&row, 0));
    assert_eq!(read_opt_int(&row, 3).unwrap(), None);
    assert_eq!(read_opt_int(&row, 0).unwrap(), Some(5));
    assert_eq!(read_opt_text(&row, 1).unwrap().as_deref(), Some("t"));
    assert_eq!(read_opt_blob(&row, 2).unwrap(), Some(vec![1]));
    assert_eq!(read_opt_text(&row, 0).unwrap().as_deref(), Some("5"));
    assert!(read_opt_text(&row, 9).is_err());
    assert_eq!(first_int(&vec![row]).unwrap(), 5);
    assert_eq!(first_blob(&vec![]).unwrap(), None);
    assert!(first_int(&vec![]).is_err());
}

#[test]
fn values_are_converted_on_the_way_out() {
    let text = |s: &str| Value::Text(s.to_string());
    assert_eq!(text(" \t-12x").to_int(), Some(-12));
    assert_eq!(text("+7").to_int(), Some(7));
    assert_eq!(text("99999999999999999999").to_int(), Some(i64::MAX));
    assert_eq!(text("-9223372036854775808").to_int(), Some(i64::MIN));
    assert_eq!(Value::Blob(b"31".to_vec()).to_int(), Some(31));
    assert_eq!(Value::Int(i64::MIN).to_text().as_deref(), Some("-9223372036854775808"));
    assert_eq!(Value::Blob(b"ok".to_vec()).to_text().as_deref(), Some("ok"));
    assert_eq!(Value::Blob(vec![0x61, 0xff]).to_text(), None);
    assert_eq!(Value::Int(-5).to_bytes(), Some(b"-5".to_vec()));
    assert_eq!(text("\u{e9}").to_bytes(), Some(vec![0xc3, 0xa9]));
    assert_eq!(Value::Null.to_int(), None);
    assert_eq!(Value::Null.to_text(), None);
    assert_eq!(Value::Null.to_bytes(), None);
    // A truth value is read from the lower 32 bits.
    let row = vec![Value::Int(1 << 32), Value::Int(3), text("1")];
    assert!(!read_flag(&row, 0).unwrap());
    assert!(read_flag(&row, 1).unwrap());
    assert!(read_flag(&row, 2).unwrap());
}

#[test]
fn queries_know_their_numbers() {
    let query = |table, want| Query {
        table,
        want,
        filter: Cond::Always,
        order: Order::Unordered,
        first: false,
    };
    let columns = vec![Column::Id, Column::Key];
    let prekeys = query(Table::Prekeys, Want::Columns(columns));
    assert!(prekeys.is_for_numbers(0));
    assert!(!prekeys.is_for_numbers(1));
    assert!(!prekeys.is_for_numbers(2));
    let messages = query(Table::PendingInboundMessages, Want::Columns(vec![Column::Id]));
    assert!(!messages.is_for_numbers(0));
    assert!(query(Table::Prekeys, Want::Largest(Column::Id)).is_for_numbers(0));
    assert!(!query(Table::Sessions, Want::Largest(Column::Address)).is_for_numbers(0));
    assert!(query(Table::Sessions, Want::Count).is_for_numbers(0));
    assert!(query(Table::Sessions, Want::Exists).is_for_numbers(0));
}

#[test]
fn a_device_list_that_cannot_be_decoded_is_an_error() {
    let record = || DeviceListRecord {
        user: "u".to_string(),
        devices_json: "[".to_string(),
        timestamp: 1,
        phash: None,
        raw_id: None,
    };
    assert_eq!(decoded_record(record(), None).unwrap().user, "u");
    match decoded_record(record(), Some("EOF".to_string())) {
        Err(StoreError::Serialization(text)) => assert_eq!(text, "EOF"),
        _ => panic!("not refused"),
    }
}

#[test]
fn an_identity_without_text_is_none() {
    let account = |pn: &str, lid: &str| AccountRow {
        id: 3,
        pn: pn.to_string(),
        lid: lid.to_string(),
        push_name: "n".to_string(),
    };
    let empty = summarize(account("", ""), Some(1), Some(2));
    assert_eq!((empty.id, empty.pn, empty.lid, empty.linked), (3, None, None, false));
    let linked = summarize(account("a", "b"), Some(1), Some(2));
    assert_eq!((linked.pn, linked.lid, linked.linked), (Some(1), Some(2), true));
    let unparsed = summarize(account("a", "b"), None::<u8>, None);
    assert_eq!((unparsed.pn, unparsed.lid, unparsed.linked), (None, None, false));
}

#[test]
fn every_candidate_for_the_latest_key_is_read() {
    let key = |id: &[u8]| vec![Value::blob(id), Value::blob(&[1])];
    let rows = vec![key(b"b"), key(b"a")];
    assert_eq!(latest_key_answer(&rows, &[true, true]).unwrap(), Some(b"b".to_vec()));
    assert_eq!(latest_key_answer(&rows, &[false, true]).unwrap(), Some(b"a".to_vec()));
    assert_eq!(latest_key_answer(&rows, &[false, false]).unwrap(), None);
    assert_eq!(latest_key_answer(&vec![], &[]).unwrap(), None);
    for broken in [vec![Value::Null, Value::blob(&[1])], vec![Value::blob(b"c"), Value::Null]] {
        let rows = vec![key(b"b"), broken];
        assert!(latest_key_answer(&rows, &[true, false]).is_err());
        assert!(latest_key_answer(&rows, &[false, false]).is_err());
    }
}

#[test]
fn a_record_without_its_columns_is_refused() {
    assert!(device_registry_row_to_record(&vec![Value::Null]).is_err());
    assert!(registry_answer(&vec![]).unwrap().is_none());
}

#[test]
fn statements_are_written_out() {
    let row = || vec![Value::text("a"), Value::blob(&[1]), Value::Int(1)];
    let upsert = Statement::Upsert {
        table: Table::Sessions,
        rows: vec![row(), row()],
        set: vec![Assignment { column: Column::Record, value: Expr::Excluded(Column::Record) }],
    };
    assert_eq!(
        upsert.sql(),
        "INSERT INTO sessions (address, record, device_id) VALUES (?, ?, ?), (?, ?, ?) \
         ON CONFLICT (address, device_id) DO UPDATE SET record = excluded.record"
    );
    assert_eq!(upsert.values().len(), 6);
    let delete = Statement::Delete {
        table: Table::Sessions,
        filter: both(
            either(equals(Column::Address, Value::text("a")), Cond::IsNull(Column::Record)),
            owned_by(3),
        ),
    };
    assert_eq!(delete.values().len(), 2);
    assert!(delete.sql().starts_with("DELETE FROM sessions WHERE "));
    let query = Query {
        table: Table::Sessions,
        want: Want::Columns(vec![Column::Record]),
        filter: Cond::OneOf(Column::Address, vec![Value::text("a"), Value::text("b")]),
        order: Order::Descending(Column::Address),
        first: true,
    };
    assert_eq!(
        query.sql(),
        "SELECT record FROM sessions WHERE address IN (?, ?) ORDER BY address DESC LIMIT 1"
    );
    assert_eq!(query.values().len(), 2);
}

#[test]
fn every_value_has_its_placeholder() {
    let store = store(1, None, false);
    let marks = |sql: &str| sql.matches('?').count();
    let secrets: Vec<MsgSecretEntry> = (0..150)
        .map(|i| MsgSecretEntry {
            chat: "c".to_string(),
            sender: "s".to_string(),
            msg_id: format!("M{i}?"),
            secret: [1; 32],
            expires_at: 0,
            message_ts: 0,
        })
        .collect();
    let names: Vec<String> = (0..1000).map(|i| format!("u{i}")).collect();
    let writes = [
        store.put_msg_secrets(&secrets),
        store.delete_expired_msg_secrets(5),
        store.delete_sessions_batch(&names),
        store.mark_prekeys_uploaded(&[1, 2, 3]),
        store.touch_tc_token_sender_timestamp("j", 1, 2),
        store.delete_expired_tc_tokens(1, 2),
        store.store_sent_message("c", "m", b"p"),
    ];
    for plan in &writes {
        for s in &plan.statements {
            assert_eq!(marks(&s.sql()), s.values().len());
            assert!(s.values().len() <= 999);
        }
    }
    for q in &store.get_sessions_batch(&names).queries {
        assert_eq!(marks(&q.sql()), q.values().len());
    }
}

/// Where a stale answer costs something that nobody makes good, a read waits in the queue.
#[test]
fn reads_wait_in_the_queue_where_a_stale_answer_costs() {
    let store = store(1, None, false);
    let one = ["u".to_string()];
    let queued = [
        store.get_msg_secret_with_ts("c", "s", "m"),
        store.get_lid_mapping("l"),
        store.get_pn_mapping("p"),
        store.get_app_state_sync_key_for_device(b"k", 1),
        store.get_latest_app_state_sync_key_id_for_device(1),
        store.get_all_lid_mappings(),
        store.get_sender_key_devices("g"),
        store.get_devices("u"),
        store.get_devices_batch(&one),
        store.get_tc_token("j"),
        store.get_tc_tokens(&one),
        store.has_signal_state_for_user("u"),
    ];
    assert!(queued.iter().all(|plan| matches!(plan.source, Source::Queue)));
    let sent = store.get_sent_message("c", "m");
    assert!(matches!(sent.source, Source::QueueRetried("get_sent_message")));
    let pending = store.get_pending_inbound("c", "s", "i");
    assert!(matches!(pending.source, Source::QueueRetried("get_pending_inbound")));
    let free = [
        store.list_devices(),
        store.device_exists(1),
        store.load_device_data_for_device(1),
        store.load_identity_for_device("a", 1),
        store.get_session_for_device("a", 1),
        store.get_sessions_batch(&one),
        store.has_session("a"),
        store.load_prekey(1),
        store.load_prekeys_batch(&[1]),
        store.get_max_prekey_id(),
        store.load_signed_prekey(1),
        store.load_all_signed_prekeys(),
        store.get_sender_key_for_device("a", 1),
        store.get_app_state_version_for_device("n", 1),
        store.get_app_state_mutation_mac_for_device("n", b"m", 1),
        store.get_app_state_mutation_macs_batch_for_device("n", &[[0; 32]], 1),
        store.has_same_base_key("a", "m"),
        store.get_group_metadata("g"),
        store.get_all_tc_token_jids(),
    ];
    assert!(free.iter().all(|plan| matches!(plan.source, Source::Reader)));
}

#[test]
fn operations_say_where_they_run() {
    let store = store(1, None, false);
    let plan = store.put_session("a", b"s");
    assert!(matches!(plan.lane, Lane::Retried("session_write")));
    assert_eq!(plan.guard, Guard::Bare);
    assert!(matches!(store.delete_session("a").lane, Lane::Once));
    assert_eq!(store.put_sessions_batch(&[]).guard, Guard::Deferred);
    assert_eq!(store.put_msg_secrets(&[]).guard, Guard::Immediate);
    assert!(matches!(store.get_session("a").source, Source::Reader));
    assert!(matches!(store.get_sync_key(b"k").source, Source::Queue));
}
