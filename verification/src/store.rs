//! The handle of an account in an open database.

use crate::plan::Source;
use crate::retry::{QueuedRun, MAX_RETRIES};
use vstd::prelude::*;

verus! {

/// An account's view of an open database. Handles of several accounts share one database and
/// its connections; every operation is stamped with the handle's own account.
#[derive(Debug)]
pub struct SqliteStore {
    /// The account.
    pub device_id: i32,
    /// The path of the database, with its `file:` scheme where it has one.
    pub database_path: String,
    /// Write connections, and write permits.
    pub pool_size: u32,
    /// Reader connections, where there are any.
    pub readers: Option<u32>,
    /// Whether a read transaction leaves the writer alone: the journal is a write-ahead log
    /// and the cache is not shared.
    pub snapshot_safe: bool,
    /// Whether maintenance hands free pages back.
    pub incremental_vacuum: bool,
    /// How many it hands back in one pass.
    pub incremental_vacuum_pages: u32,
}

/// How a read outside the write queue is served.
#[derive(Clone, Copy, Debug, PartialEq, Eq, Structural)]
pub enum ReadRoute {
    /// In a read transaction of its own, on a snapshot of the database.
    Snapshot,
    /// On a write connection, under a write permit.
    Permit,
    /// On the one write connection there is, which orders it by itself.
    Connection,
}

/// How a read is served.
#[derive(Clone, Copy, Debug)]
pub enum Passage {
    /// Through the write queue like a write, but without the durability barrier.
    Queued(QueuedRun),
    /// Once, on a write connection, under a write permit.
    Permit,
    /// Once, in a read transaction of its own.
    Snapshot,
    /// Once, on the one write connection there is.
    Connection,
}

impl SqliteStore {
    /// There is a write connection, and readers only where snapshots are safe.
    pub open spec fn wf(self) -> bool {
        &&& self.pool_size >= 1
        &&& self.readers matches Some(n) ==> n > 0 && self.snapshot_safe
    }

    /// The account of the handle.
    pub fn device_id(&self) -> (id: i32)
        ensures
            id == self.device_id,
    {
        self.device_id
    }

    /// A handle for another account in the same database, on the same connections. It does not
    /// create the account's row.
    pub fn share_for_device(&self, device_id: i32) -> (store: SqliteStore)
        ensures
            store == (SqliteStore { device_id, ..*self }),
    {
        SqliteStore {
            device_id,
            database_path: self.database_path.clone(),
            pool_size: self.pool_size,
            readers: self.readers,
            snapshot_safe: self.snapshot_safe,
            incremental_vacuum: self.incremental_vacuum,
            incremental_vacuum_pages: self.incremental_vacuum_pages,
        }
    }

    /// How a read outside the write queue is served: on a snapshot wherever there is real
    /// concurrency and a snapshot is safe, under a permit where several connections write and
    /// it is not, and otherwise on the one connection.
    pub open spec fn route(self) -> ReadRoute {
        if self.readers is Some || (self.snapshot_safe && self.pool_size > 1) {
            ReadRoute::Snapshot
        } else if self.pool_size > 1 {
            ReadRoute::Permit
        } else {
            ReadRoute::Connection
        }
    }

    /// How a read outside the write queue is served.
    pub fn read_route(&self) -> (route: ReadRoute)
        ensures
            route == self.route(),
    {
        if self.readers.is_some() || (self.snapshot_safe && self.pool_size > 1) {
            ReadRoute::Snapshot
        } else if self.pool_size > 1 {
            ReadRoute::Permit
        } else {
            ReadRoute::Connection
        }
    }

    /// How a read is served, given where it is to run.
    pub fn passage(&self, source: Source) -> (way: Passage)
        ensures
            match source {
                Source::QueueRetried(name) => way matches Passage::Queued(run) && run.wf() && run.op
                    == name && run.retries == MAX_RETRIES && run.attempt == 0 && !run.barrier,
                Source::Queue => way is Permit,
                Source::Reader => match self.route() {
                    ReadRoute::Snapshot => way is Snapshot,
                    ReadRoute::Permit => way is Permit,
                    ReadRoute::Connection => way is Connection,
                },
            },
    {
        match source {
            Source::QueueRetried(name) => Passage::Queued(QueuedRun::retried(name, false)),
            Source::Queue => Passage::Permit,
            Source::Reader => match self.read_route() {
                ReadRoute::Snapshot => Passage::Snapshot,
                ReadRoute::Permit => Passage::Permit,
                ReadRoute::Connection => Passage::Connection,
            },
        }
    }
}

/// A read is served on a snapshot only where a read transaction leaves the writer alone and
/// there is a connection beside the one that writes. Where there is none, or a snapshot is not
/// safe, it takes its turn: under a permit among several connections, on the one there is
/// otherwise.
pub proof fn law_snapshots_are_safe(store: SqliteStore)
    requires
        store.wf(),
    ensures
        store.route() is Snapshot <==> store.snapshot_safe && (store.readers is Some
            || store.pool_size > 1),
        store.route() is Permit <==> !store.snapshot_safe && store.pool_size > 1,
        store.route() is Connection <==> store.readers is None && store.pool_size == 1,
{
}

} // verus!
