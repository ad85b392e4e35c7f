//! How a store is configured, and what that means for its connections.

use crate::text::{append_decimal, decimal};
use vstd::prelude::*;

verus! {

broadcast use {vstd::string::group_string_axioms, vstd::seq::group_seq_axioms};

/// `PRAGMA synchronous`: how hard a commit tries to reach the disk.
#[derive(Clone, Copy, Debug, PartialEq, Eq, Structural)]
pub enum Synchronous {
    Off,
    Normal,
    Full,
}

/// The pragma's word for a level.
pub open spec fn synchronous_word(s: Synchronous) -> Seq<char> {
    match s {
        Synchronous::Off => "OFF"@,
        Synchronous::Normal => "NORMAL"@,
        Synchronous::Full => "FULL"@,
    }
}

impl Synchronous {
    /// The pragma's word for the level.
    pub fn as_pragma(self) -> (word: &'static str)
        ensures
            word@ == synchronous_word(self),
    {
        match self {
            Synchronous::Off => "OFF",
            Synchronous::Normal => "NORMAL",
            Synchronous::Full => "FULL",
        }
    }
}

/// A span of time: whole seconds and the nanoseconds beyond them.
#[derive(Clone, Copy, Debug, PartialEq, Eq, Structural)]
pub struct Timeout {
    pub secs: u64,
    pub nanos: u32,
}

/// The milliseconds SQLite is given for a busy timeout. A span that is not zero stays at least
/// one, so that it does not turn the timeout off, and at most what fits a signed 32-bit number.
pub open spec fn timeout_ms(t: Timeout) -> nat {
    let ms = t.secs * 1000 + t.nanos / 1_000_000;
    if t.secs == 0 && t.nanos == 0 {
        0
    } else if ms < 1 {
        1
    } else if ms > i32::MAX {
        i32::MAX as nat
    } else {
        ms as nat
    }
}

impl Timeout {
    /// The milliseconds SQLite is given.
    pub fn busy_timeout_ms(self) -> (ms: u64)
        ensures
            ms == timeout_ms(self),
    {
        if self.secs == 0 && self.nanos == 0 {
            return 0;
        }
        let most: u64 = 2_147_483_647;
        if self.secs > most {
            return most;
        }
        let ms: u64 = self.secs * 1000 + (self.nanos / 1_000_000) as u64;
        if ms < 1 {
            1
        } else if ms > most {
            most
        } else {
            ms
        }
    }
}

/// Tuning of a store's connections. The default suits many small stores in one process: one
/// write connection, one reader and a small page cache.
#[derive(Clone, Copy, Debug)]
pub struct SqliteStoreConfig {
    /// Write connections, and how many writes may run at once. At least one.
    pub pool_size: u32,
    /// Further connections for reading only.
    pub read_pool_size: u32,
    /// `PRAGMA cache_size`, in KiB for each connection.
    pub cache_size_kib: u32,
    /// `PRAGMA mmap_size`, in bytes. None and zero both leave it off.
    pub mmap_size: Option<u64>,
    /// `PRAGMA busy_timeout`.
    pub busy_timeout: Timeout,
    /// `PRAGMA synchronous`.
    pub synchronous: Synchronous,
    /// Whether maintenance hands free pages back to the file system, where the database is in
    /// the mode that allows it.
    pub incremental_vacuum: bool,
    /// How many pages maintenance hands back in one pass. Zero turns the pass off.
    pub incremental_vacuum_pages: u32,
}

impl Default for SqliteStoreConfig {
    fn default() -> (config: SqliteStoreConfig)
        ensures
            config == (SqliteStoreConfig {
                pool_size: 1,
                read_pool_size: 1,
                cache_size_kib: 512,
                mmap_size: None,
                busy_timeout: Timeout { secs: 30, nanos: 0 },
                synchronous: Synchronous::Normal,
                incremental_vacuum: false,
                incremental_vacuum_pages: 400,
            }),
    {
        SqliteStoreConfig {
            pool_size: 1,
            read_pool_size: 1,
            cache_size_kib: 512,
            mmap_size: None,
            busy_timeout: Timeout { secs: 30, nanos: 0 },
            synchronous: Synchronous::Normal,
            incremental_vacuum: false,
            incremental_vacuum_pages: 400,
        }
    }
}

impl SqliteStoreConfig {
    /// Reserves `n` connections for reading.
    pub fn with_read_pool_size(self, n: u32) -> (config: SqliteStoreConfig)
        ensures
            config == (SqliteStoreConfig { read_pool_size: n, ..self }),
    {
        SqliteStoreConfig { read_pool_size: n, ..self }
    }

    /// Reads through a memory map of this many bytes; zero keeps it off.
    pub fn with_mmap_size(self, bytes: u64) -> (config: SqliteStoreConfig)
        ensures
            config == (SqliteStoreConfig { mmap_size: Some(bytes), ..self }),
    {
        SqliteStoreConfig { mmap_size: Some(bytes), ..self }
    }

    /// Lets maintenance hand back up to `pages` free pages in each pass; zero leaves the option
    /// off altogether.
    pub fn with_incremental_vacuum(self, pages: u32) -> (config: SqliteStoreConfig)
        ensures
            config == (SqliteStoreConfig {
                incremental_vacuum: pages > 0,
                incremental_vacuum_pages: pages,
                ..self
            }),
    {
        SqliteStoreConfig {
            incremental_vacuum: pages > 0,
            incremental_vacuum_pages: pages,
            ..self
        }
    }

    /// How a connection of the store is set up; `query_only` for one that only reads.
    pub fn connection_options(&self, query_only: bool) -> (options: ConnectionOptions)
        ensures
            options == options_of(*self, query_only),
    {
        ConnectionOptions {
            cache_size_kib: self.cache_size_kib,
            mmap_size: self.mmap_size,
            busy_timeout_ms: self.busy_timeout.busy_timeout_ms(),
            synchronous: self.synchronous,
            query_only,
        }
    }
}

/// What every new connection is set to.
#[derive(Clone, Copy, Debug)]
pub struct ConnectionOptions {
    pub cache_size_kib: u32,
    pub mmap_size: Option<u64>,
    pub busy_timeout_ms: u64,
    pub synchronous: Synchronous,
    /// A write through the connection is an error.
    pub query_only: bool,
}

/// How the connections of a configuration are set up.
pub open spec fn options_of(c: SqliteStoreConfig, query_only: bool) -> ConnectionOptions {
    ConnectionOptions {
        cache_size_kib: c.cache_size_kib,
        mmap_size: c.mmap_size,
        busy_timeout_ms: timeout_ms(c.busy_timeout) as u64,
        synchronous: c.synchronous,
        query_only,
    }
}

/// The texts of a list of strings.
pub open spec fn texts(list: Seq<String>) -> Seq<Seq<char>> {
    list.map_values(|s: String| s@)
}

/// The pragmas a new connection runs before any other statement of the store, in order.
pub open spec fn connection_pragmas(o: ConnectionOptions) -> Seq<Seq<char>> {
    seq![
        "PRAGMA busy_timeout = "@ + decimal(o.busy_timeout_ms as nat) + ";"@,
        "PRAGMA synchronous = "@ + synchronous_word(o.synchronous) + ";"@,
        "PRAGMA cache_size = -"@ + decimal(o.cache_size_kib as nat) + ";"@,
        "PRAGMA temp_store = memory;"@,
        "PRAGMA foreign_keys = ON;"@,
        "PRAGMA journal_size_limit = 33554432;"@,
    ] + (match o.mmap_size {
        Some(n) if n > 0 => seq!["PRAGMA mmap_size = "@ + decimal(n as nat) + ";"@],
        _ => seq![],
    }) + (if o.query_only {
        seq!["PRAGMA query_only = 1;"@]
    } else {
        seq![]
    })
}

/// A pragma that sets a number.
fn numeric_pragma(head: &str, n: u64) -> (pragma: String)
    ensures
        pragma@ == head@ + decimal(n as nat) + ";"@,
{
    let mut text: String = head.to_owned();
    append_decimal(&mut text, n);
    text.append(";");
    text
}

impl ConnectionOptions {
    /// What a new connection runs once the hook for new connections is through with it: the
    /// pragmas, or nothing at all where the hook refused the connection.
    pub fn on_acquire<E>(&self, hook: Result<(), E>) -> (r: Result<Vec<String>, E>)
        ensures
            match hook {
                Ok(_) => r matches Ok(list) && texts(list@) == connection_pragmas(*self),
                Err(error) => r == Err::<Vec<String>, E>(error),
            },
    {
        match hook {
            Ok(_) => Ok(self.pragmas()),
            Err(error) => Err(error),
        }
    }

    /// The pragmas a new connection runs before any other statement of the store. A hook for
    /// new connections runs before them: it may have to unlock the database first.
    pub fn pragmas(&self) -> (list: Vec<String>)
        ensures
            texts(list@) == connection_pragmas(*self),
    {
        let mut list: Vec<String> = Vec::new();
        list.push(numeric_pragma("PRAGMA busy_timeout = ", self.busy_timeout_ms));
        let mut level: String = "PRAGMA synchronous = ".to_owned();
        level.append(self.synchronous.as_pragma());
        level.append(";");
        list.push(level);
        list.push(numeric_pragma("PRAGMA cache_size = -", self.cache_size_kib as u64));
        list.push("PRAGMA temp_store = memory;".to_owned());
        list.push("PRAGMA foreign_keys = ON;".to_owned());
        list.push("PRAGMA journal_size_limit = 33554432;".to_owned());
        if let Some(n) = self.mmap_size {
            if n > 0 {
                list.push(numeric_pragma("PRAGMA mmap_size = ", n));
            }
        }
        if self.query_only {
            list.push("PRAGMA query_only = 1;".to_owned());
        }
        assert(texts(list@) =~= connection_pragmas(*self));
        list
    }
}

/// A timeout is off exactly where none was asked for, and never too large for SQLite.
pub proof fn law_timeout_is_kept(t: Timeout)
    ensures
        timeout_ms(t) == 0 <==> t.secs == 0 && t.nanos == 0,
        timeout_ms(t) <= i32::MAX,
{
}

/// Only the reader connections refuse to write, and they do so last: a reader runs the pragmas
/// of a writer and one more.
pub proof fn law_readers_cannot_write(c: SqliteStoreConfig)
    ensures
        connection_pragmas(options_of(c, true)) == connection_pragmas(options_of(c, false)).push(
            "PRAGMA query_only = 1;"@,
        ),
{
    assert(connection_pragmas(options_of(c, true)) =~= connection_pragmas(
        options_of(c, false),
    ).push("PRAGMA query_only = 1;"@));
}

} // verus!
