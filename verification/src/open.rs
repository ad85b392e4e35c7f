//! Opening a database: what is asked of it, in which order, and what its answers decide.

use crate::config::{options_of, ConnectionOptions, SqliteStoreConfig};
use crate::error::{commit_barrier_error, CommitBarrierError, StoreError};
use crate::location::{
    database_path, eq_ignore_ascii_case, is_shared_cache, parse_database_path, same_ignoring_case,
    shared_cache,
};
use crate::store::SqliteStore;
use vstd::prelude::*;

verus! {

broadcast use {vstd::string::group_string_axioms, vstd::seq::group_seq_axioms};

/// What an opening waits for.
#[derive(Clone, Copy, Debug, PartialEq, Eq, Structural)]
pub enum OpenPhase {
    /// The write connections.
    Pool,
    /// The size of the database.
    PageCount,
    /// The vacuum mode.
    AutoVacuum,
    /// The journal mode.
    Journal,
    /// The migrations.
    Migrations,
    /// The durability barrier.
    Barrier,
    /// The reader connections.
    Readers,
}

/// An opening under way.
#[derive(Debug)]
pub struct Opening {
    pub url: String,
    pub device_id: i32,
    pub config: SqliteStoreConfig,
    /// Whether a durability barrier is configured.
    pub has_barrier: bool,
    /// Whether the target allows one connection only.
    pub web: bool,
    pub phase: OpenPhase,
    /// Why there can be no reader connections, once that is known.
    pub declined: Option<String>,
}

/// What the database is asked to do next.
#[derive(Debug)]
pub enum OpenAction {
    /// Open the write connections, this many, set up so.
    OpenPool { size: u32, options: ConnectionOptions },
    /// Report the number of pages.
    QueryPageCount,
    /// Let free pages be handed back one by one.
    SetAutoVacuum,
    /// Journal in a write-ahead log and report the mode in effect.
    SetWal,
    /// Run the pending migrations.
    Migrate,
    /// Wait for the durability barrier.
    AwaitBarrier,
    /// Open the reader connections, this many, set up so.
    OpenReaders { size: u32, options: ConnectionOptions },
    /// Hand out the store.
    Ready(SqliteStore),
    /// Give up.
    Fail(StoreError),
}

/// How the last action ended.
#[derive(Debug)]
pub enum OpenEvent {
    Done,
    PageCount(i64),
    JournalMode(String),
    Failed(StoreError),
}

/// An opening and what it asks for.
#[derive(Debug)]
pub struct OpenStep {
    pub opening: Opening,
    pub action: OpenAction,
}

/// Why reader connections are not to be had: the target has one connection, the journal is not
/// a write-ahead log, or the cache is shared.
pub open spec fn declined_reason(web: bool, mode: Seq<char>, url: Seq<char>) -> Option<Seq<char>> {
    if web {
        Some("the web build has a single connection per database"@)
    } else if !same_ignoring_case(mode, "wal"@) {
        Some("journal_mode is '"@ + mode + "', not WAL"@)
    } else if shared_cache(url) {
        Some("the URI opts into shared cache, whose table locks block the writer"@)
    } else {
        None
    }
}

/// Why reader connections are not to be had, if so.
pub fn reader_refusal(web: bool, journal_mode: &str, url: &str) -> (reason: Option<String>)
    ensures
        crate::value::opt_text(reason) == declined_reason(web, journal_mode@, url@),
{
    if web {
        Some("the web build has a single connection per database".to_owned())
    } else if !eq_ignore_ascii_case(journal_mode, "wal") {
        let mut text: String = "journal_mode is '".to_owned();
        text.append(journal_mode);
        text.append("', not WAL");
        Some(text)
    } else if is_shared_cache(url) {
        Some("the URI opts into shared cache, whose table locks block the writer".to_owned())
    } else {
        None
    }
}

/// The event answers what the phase waits for.
pub open spec fn fits(phase: OpenPhase, event: OpenEvent) -> bool {
    match event {
        OpenEvent::Failed(_) => true,
        OpenEvent::PageCount(_) => phase == OpenPhase::PageCount,
        OpenEvent::JournalMode(_) => phase == OpenPhase::Journal,
        OpenEvent::Done => phase != OpenPhase::PageCount && phase != OpenPhase::Journal,
    }
}

/// How far a phase is along.
pub open spec fn rank(phase: OpenPhase) -> int {
    match phase {
        OpenPhase::Pool => 0,
        OpenPhase::PageCount => 1,
        OpenPhase::AutoVacuum => 2,
        OpenPhase::Journal => 3,
        OpenPhase::Migrations => 4,
        OpenPhase::Barrier => 5,
        OpenPhase::Readers => 6,
    }
}

impl Opening {
    /// The reasons against readers are known by the time they count.
    pub open spec fn wants_readers(self) -> bool {
        self.config.read_pool_size > 0 && self.declined is None
    }

    /// The same opening, in a phase.
    pub open spec fn at(self, phase: OpenPhase) -> Opening {
        Opening { phase, ..self }
    }
}

/// The write connections of a configuration: at least one.
pub open spec fn write_connections(c: SqliteStoreConfig) -> u32 {
    if c.pool_size < 1 {
        1
    } else {
        c.pool_size
    }
}

/// The last step: the store, or the error of a URL that names no file.
pub open spec fn finishes(o: Opening, action: OpenAction) -> bool {
    match database_path(o.url@) {
        None => action matches OpenAction::Fail(StoreError::InvalidConfig(m)) && m@
            == "Snapshot not supported for in-memory databases"@,
        Some(path) => {
            &&& action matches OpenAction::Ready(store)
            &&& store.wf()
            &&& store.device_id == o.device_id
            &&& store.database_path@ == path
            &&& store.pool_size == write_connections(o.config)
            &&& store.readers == (if o.wants_readers() {
                Some(o.config.read_pool_size)
            } else {
                None
            })
            &&& store.snapshot_safe == (o.declined is None)
            &&& store.incremental_vacuum == o.config.incremental_vacuum
            &&& store.incremental_vacuum_pages == o.config.incremental_vacuum_pages
        },
    }
}

/// What follows once writes are durable: reader connections where they are wanted and can be
/// had, otherwise the end.
pub open spec fn settles(o: Opening, step: OpenStep) -> bool {
    if o.wants_readers() {
        &&& step.opening == o.at(OpenPhase::Readers)
        &&& step.action == OpenAction::OpenReaders {
            size: o.config.read_pool_size,
            options: options_of(o.config, true),
        }
    } else {
        finishes(o, step.action)
    }
}

impl Opening {
    /// Begins to open a database for an account.
    pub fn start(
        url: &str,
        device_id: i32,
        config: SqliteStoreConfig,
        has_barrier: bool,
        web: bool,
    ) -> (step: OpenStep)
        ensures
            step.opening.url@ == url@,
            step.opening.device_id == device_id,
            step.opening.config == config,
            step.opening.has_barrier == has_barrier,
            step.opening.web == web,
            step.opening.phase == OpenPhase::Pool,
            step.opening.declined is None,
            step.action == (OpenAction::OpenPool {
                size: write_connections(config),
                options: options_of(config, false),
            }),
    {
        OpenStep {
            action: OpenAction::OpenPool {
                size: if config.pool_size < 1 {
                    1
                } else {
                    config.pool_size
                },
                options: config.connection_options(false),
            },
            opening: Opening {
                url: url.to_owned(),
                device_id,
                config,
                has_barrier,
                web,
                phase: OpenPhase::Pool,
                declined: None,
            },
        }
    }

    /// Goes on with an opening, given how the last action ended.
    ///
    /// The vacuum mode is set on a database without pages only, and before the journal mode,
    /// which writes the first page. Migrations run in the journal mode in effect. The path is
    /// looked at last.
    pub fn next(self, event: OpenEvent) -> (step: OpenStep)
        requires
            fits(self.phase, event),
        ensures
            match event {
                OpenEvent::Failed(error) => step.action == OpenAction::Fail(
                    if self.phase == OpenPhase::Barrier {
                        StoreError::CommitBarrier(CommitBarrierError(Box::new(error)))
                    } else {
                        error
                    },
                ),
                OpenEvent::PageCount(n) => if n == 0 {
                    step.opening == self.at(OpenPhase::AutoVacuum) && step.action
                        == OpenAction::SetAutoVacuum
                } else {
                    step.opening == self.at(OpenPhase::Journal) && step.action
                        == OpenAction::SetWal
                },
                OpenEvent::JournalMode(mode) => {
                    &&& step.action == OpenAction::Migrate
                    &&& step.opening.phase == OpenPhase::Migrations
                    &&& step.opening == (Opening {
                        declined: step.opening.declined,
                        ..self.at(OpenPhase::Migrations)
                    })
                    &&& crate::value::opt_text(step.opening.declined) == declined_reason(
                        self.web,
                        mode@,
                        self.url@,
                    )
                },
                OpenEvent::Done => match self.phase {
                    OpenPhase::Pool => if self.config.incremental_vacuum {
                        step.opening == self.at(OpenPhase::PageCount) && step.action
                            == OpenAction::QueryPageCount
                    } else {
                        step.opening == self.at(OpenPhase::Journal) && step.action
                            == OpenAction::SetWal
                    },
                    OpenPhase::AutoVacuum => step.opening == self.at(OpenPhase::Journal)
                        && step.action == OpenAction::SetWal,
                    OpenPhase::Migrations => if self.has_barrier {
                        step.opening == self.at(OpenPhase::Barrier) && step.action
                            == OpenAction::AwaitBarrier
                    } else {
                        settles(self, step)
                    },
                    OpenPhase::Barrier => settles(self, step),
                    _ => finishes(self, step.action),
                },
            },
            step.action is Ready || step.action is Fail || rank(step.opening.phase) > rank(
                self.phase,
            ),
    {
        let mut opening = self;
        match event {
            OpenEvent::Failed(error) => {
                let reason = if opening.phase == OpenPhase::Barrier {
                    commit_barrier_error(error)
                } else {
                    error
                };
                OpenStep { opening, action: OpenAction::Fail(reason) }
            },
            OpenEvent::PageCount(n) => if n == 0 {
                opening.phase = OpenPhase::AutoVacuum;
                OpenStep { opening, action: OpenAction::SetAutoVacuum }
            } else {
                opening.phase = OpenPhase::Journal;
                OpenStep { opening, action: OpenAction::SetWal }
            },
            OpenEvent::JournalMode(mode) => {
                opening.declined = reader_refusal(opening.web, &mode, &opening.url);
                opening.phase = OpenPhase::Migrations;
                OpenStep { opening, action: OpenAction::Migrate }
            },
            OpenEvent::Done => match opening.phase {
                OpenPhase::Pool => if opening.config.incremental_vacuum {
                    opening.phase = OpenPhase::PageCount;
                    OpenStep { opening, action: OpenAction::QueryPageCount }
                } else {
                    opening.phase = OpenPhase::Journal;
                    OpenStep { opening, action: OpenAction::SetWal }
                },
                OpenPhase::AutoVacuum => {
                    opening.phase = OpenPhase::Journal;
                    OpenStep { opening, action: OpenAction::SetWal }
                },
                OpenPhase::Migrations => if opening.has_barrier {
                    opening.phase = OpenPhase::Barrier;
                    OpenStep { opening, action: OpenAction::AwaitBarrier }
                } else {
                    opening.settle()
                },
                OpenPhase::Barrier => opening.settle(),
                _ => {
                    let action = opening.finish();
                    OpenStep { opening, action }
                },
            },
        }
    }

    /// Opens readers where they are wanted and can be had.
    fn settle(self) -> (step: OpenStep)
        ensures
            settles(self, step),
            step.action is Ready || step.action is Fail || step.opening.phase == OpenPhase::Readers,
    {
        let mut opening = self;
        if opening.config.read_pool_size > 0 && opening.declined.is_none() {
            opening.phase = OpenPhase::Readers;
            let action = OpenAction::OpenReaders {
                size: opening.config.read_pool_size,
                options: opening.config.connection_options(true),
            };
            OpenStep { opening, action }
        } else {
            let action = opening.finish();
            OpenStep { opening, action }
        }
    }

    /// The store, or the error of a URL that names no file.
    fn finish(&self) -> (action: OpenAction)
        ensures
            finishes(*self, action),
    {
        match parse_database_path(&self.url) {
            Err(error) => OpenAction::Fail(error),
            Ok(path) => OpenAction::Ready(
                SqliteStore {
                    device_id: self.device_id,
                    database_path: path,
                    pool_size: if self.config.pool_size < 1 {
                        1
                    } else {
                        self.config.pool_size
                    },
                    readers: if self.config.read_pool_size > 0 && self.declined.is_none() {
                        Some(self.config.read_pool_size)
                    } else {
                        None
                    },
                    snapshot_safe: self.declined.is_none(),
                    incremental_vacuum: self.config.incremental_vacuum,
                    incremental_vacuum_pages: self.config.incremental_vacuum_pages,
                },
            ),
        }
    }
}

impl OpenAction {
    /// The pragma that puts the action into effect, where it is one.
    pub fn sql(&self) -> (text: Option<&'static str>)
        ensures
            match self {
                OpenAction::QueryPageCount => text matches Some(t) && t@ == "PRAGMA page_count;"@,
                OpenAction::SetAutoVacuum => text matches Some(t) && t@
                    == "PRAGMA auto_vacuum = INCREMENTAL;"@,
                OpenAction::SetWal => text matches Some(t) && t@ == "PRAGMA journal_mode = WAL;"@,
                _ => text is None,
            },
    {
        match self {
            OpenAction::QueryPageCount => Some("PRAGMA page_count;"),
            OpenAction::SetAutoVacuum => Some("PRAGMA auto_vacuum = INCREMENTAL;"),
            OpenAction::SetWal => Some("PRAGMA journal_mode = WAL;"),
            _ => None,
        }
    }
}

} // verus!
