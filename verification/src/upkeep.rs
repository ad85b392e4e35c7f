//! Snapshots, maintenance and the report of what a store uses.

use crate::error::{retriable, Fault, StoreError};
use crate::location::{file_path, filesystem_path};
use crate::plan::Lane;
use crate::store::SqliteStore;
use crate::text::{
    append_decimal, append_signed, chars_of, decimal, find_char, first_place, lemma_first_place,
    signed_decimal, text_between,
};
use vstd::prelude::*;

verus! {

broadcast use {vstd::string::group_string_axioms, vstd::seq::group_seq_axioms};

// ---------------------------------------------------------------------------------------
// Snapshots

/// The longest name of a snapshot.
pub const MAX_SNAPSHOT_NAME: usize = 100;

/// A character that may stand in the name of a snapshot.
pub open spec fn is_safe(c: char) -> bool {
    ('a' <= c <= 'z') || ('A' <= c <= 'Z') || ('0' <= c <= '9') || c == '_' || c == '-' || c == '.'
}

/// A name with an underscore for each character that may not stand in it.
pub open spec fn masked(name: Seq<char>) -> Seq<char> {
    name.map_values(
        |c: char|
            if is_safe(c) {
                c
            } else {
                '_'
            },
    )
}

/// The parts of a name between its dots, those that are not empty, with one dot between them.
pub open spec fn dotted(name: Seq<char>) -> Seq<char>
    decreases name.len(),
{
    let dot = first_place(name, |c: char| c == '.');
    let part = name.take(dot);
    let rest = if 0 <= dot < name.len() {
        dotted(name.skip(dot + 1))
    } else {
        seq![]
    };
    if part.len() == 0 {
        rest
    } else if rest.len() == 0 {
        part
    } else {
        part + seq!['.'] + rest
    }
}

/// The name under which a snapshot is kept.
pub open spec fn sanitized(name: Seq<char>) -> Seq<char> {
    dotted(masked(name))
}

/// A name with an underscore for each character that may not stand in it.
fn mask(name: &str) -> (out: Vec<char>)
    ensures
        out@ == masked(name@),
{
    let chars = chars_of(name);
    let mut out: Vec<char> = Vec::new();
    let mut i: usize = 0;
    while i < chars.len()
        invariant
            i <= chars.len(),
            chars@ == name@,
            out@.len() == i,
            forall|j: int|
                0 <= j < i ==> #[trigger] out@[j] == (if is_safe(chars@[j]) {
                    chars@[j]
                } else {
                    '_'
                }),
        decreases chars.len() - i,
    {
        let c = chars[i];
        let safe = ('a' <= c && c <= 'z') || ('A' <= c && c <= 'Z') || ('0' <= c && c <= '9') || c
            == '_' || c == '-' || c == '.';
        out.push(
            if safe {
                c
            } else {
                '_'
            },
        );
        i = i + 1;
    }
    assert(out@ =~= masked(name@));
    out
}

/// Two texts with a dot between them, where neither is empty.
pub open spec fn joined(a: Seq<char>, b: Seq<char>) -> Seq<char> {
    if a.len() == 0 {
        b
    } else if b.len() == 0 {
        a
    } else {
        a + seq!['.'] + b
    }
}

/// The parts of a name between its dots, those that are not empty, with one dot between them.
fn join_parts(name: &Vec<char>) -> (out: String)
    ensures
        out@ == dotted(name@),
{
    let mut out: String = String::new();
    let mut from: usize = 0;
    let mut more = true;
    assert(name@.skip(0) =~= name@);
    while more
        invariant
            from <= name@.len(),
            more ==> joined(out@, dotted(name@.skip(from as int))) == dotted(name@),
            !more ==> out@ == dotted(name@),
        decreases name@.len() - from + (if more { 1int } else { 0int }),
    {
        let ghost before = out@;
        let ghost tail = name@.skip(from as int);
        assert(name@.subrange(from as int, name@.len() as int) =~= tail);
        let dot = find_char(name, '.', from, name.len());
        let part = text_between(name, from, dot);
        assert(tail.take(dot - from) =~= part@);
        if dot > from {
            if !out.as_str().is_empty() {
                out.push('.');
            }
            out.append(&part);
        }
        assert(out@ =~= joined(before, part@));
        if dot < name.len() {
            proof {
                let rest = dotted(name@.skip(dot + 1));
                assert(tail.skip(dot - from + 1) =~= name@.skip(dot + 1));
                assert(dotted(tail) == joined(part@, rest));
                assert(joined(out@, rest) =~= joined(before, joined(part@, rest)));
            }
            from = dot + 1;
        } else {
            proof {
                assert(dotted(tail) == joined(part@, seq![]));
            }
            more = false;
        }
    }
    out
}

/// The name under which a snapshot is kept. A name with nothing left of it, or too much, is
/// refused.
pub fn sanitize_snapshot_name(name: &str) -> (r: Result<String, StoreError>)
    ensures
        if sanitized(name@).len() == 0 {
            r matches Err(StoreError::InvalidConfig(m)) && m@
                == "Snapshot name cannot be empty after sanitization"@
        } else if sanitized(name@).len() > MAX_SNAPSHOT_NAME {
            r matches Err(StoreError::InvalidConfig(m)) && m@
                == "Snapshot name exceeds maximum length of 100 characters"@
        } else {
            r matches Ok(s) && s@ == sanitized(name@)
        },
{
    let chars = mask(name);
    let text = join_parts(&chars);
    let n: usize = chars_of(&text).len();
    if n == 0 {
        return Err(
            StoreError::InvalidConfig(
                "Snapshot name cannot be empty after sanitization".to_owned(),
            ),
        );
    }
    if n > MAX_SNAPSHOT_NAME {
        return Err(
            StoreError::InvalidConfig(
                "Snapshot name exceeds maximum length of 100 characters".to_owned(),
            ),
        );
    }
    Ok(text)
}

/// The path of a snapshot.
pub open spec fn snapshot_path(db_path: Seq<char>, timestamp: int, name: Seq<char>) -> Seq<char> {
    db_path + ".snapshot-"@ + signed_decimal(timestamp) + "-"@ + name
}

/// Text with each single quote doubled.
pub open spec fn doubled(s: Seq<char>) -> Seq<char>
    decreases s.len(),
{
    if s.len() == 0 {
        seq![]
    } else if s[0] == '\'' {
        seq!['\'', '\''] + doubled(s.skip(1))
    } else {
        seq![s[0]] + doubled(s.skip(1))
    }
}

/// The statement that writes a snapshot.
pub open spec fn snapshot_sql(path: Seq<char>) -> Seq<char> {
    "VACUUM INTO '"@ + doubled(path) + "'"@
}

/// Text with each single quote doubled.
fn double_quotes(s: &str) -> (out: String)
    ensures
        out@ == doubled(s@),
{
    let chars = chars_of(s);
    let mut out: String = String::new();
    let mut i: usize = 0;
    assert(chars@.skip(0) =~= chars@);
    assert(out@ + doubled(chars@.skip(0)) =~= doubled(chars@));
    while i < chars.len()
        invariant
            i <= chars.len(),
            out@ + doubled(chars@.skip(i as int)) == doubled(chars@),
        decreases chars.len() - i,
    {
        let ghost tail = chars@.skip(i as int);
        assert(tail.skip(1) =~= chars@.skip(i + 1));
        let ghost before = out@;
        out.push(chars[i]);
        if chars[i] == '\'' {
            out.push('\'');
        }
        assert(out@ + doubled(chars@.skip(i + 1)) =~= before + doubled(tail));
        i = i + 1;
    }
    assert(out@ + doubled(chars@.skip(i as int)) =~= out@);
    assert(chars@ == s@);
    out
}

/// What a snapshot asks for.
#[derive(Debug)]
pub struct Snapshot {
    /// The statement that writes it.
    pub sql: String,
    /// Where content that goes with it is written.
    pub extra_path: String,
}

impl SqliteStore {
    /// A consistent copy of the database, beside it, under a name of its own.
    pub fn snapshot_db(&self, name: &str, timestamp: i64) -> (r: Result<Snapshot, StoreError>)
        ensures
            if sanitized(name@).len() == 0 {
                r matches Err(StoreError::InvalidConfig(m)) && m@
                    == "Snapshot name cannot be empty after sanitization"@
            } else if sanitized(name@).len() > MAX_SNAPSHOT_NAME {
                r matches Err(StoreError::InvalidConfig(m)) && m@
                    == "Snapshot name exceeds maximum length of 100 characters"@
            } else {
                &&& r matches Ok(s)
                &&& s.sql@ == snapshot_sql(
                    snapshot_path(self.database_path@, timestamp as int, sanitized(name@)),
                )
                &&& s.extra_path@ == snapshot_path(
                    self.database_path@,
                    timestamp as int,
                    sanitized(name@),
                ) + ".json"@
            },
    {
        let clean = match sanitize_snapshot_name(name) {
            Ok(s) => s,
            Err(e) => return Err(e),
        };
        let mut path: String = self.database_path.clone();
        path.append(".snapshot-");
        append_signed(&mut path, timestamp);
        path.append("-");
        path.append(&clean);
        let mut sql: String = "VACUUM INTO '".to_owned();
        sql.append(&double_quotes(&path));
        sql.append("'");
        path.append(".json");
        Ok(Snapshot { sql, extra_path: path })
    }
}

// ---------------------------------------------------------------------------------------
// Maintenance

/// The vacuum mode in which free pages can be handed back one by one.
pub const INCREMENTAL_MODE: i64 = 2;

/// What maintenance asks of the database.
#[derive(Clone, Copy, Debug, PartialEq, Eq, Structural)]
pub enum Chore {
    /// Bound how much each analysis samples.
    LimitAnalysis,
    /// Refresh what the planner knows, where it is out of date.
    Optimize,
    /// Write the log back and cut it short, where no reader needs it.
    Checkpoint,
    /// Report the vacuum mode.
    QueryMode,
    /// Hand back up to this many free pages.
    Reclaim(u32),
}

/// How a chore ended.
#[derive(Debug)]
pub enum ChoreResult {
    Done,
    /// The vacuum mode.
    Mode(i64),
    Faulted(Fault),
}

/// What follows a chore.
#[derive(Debug)]
pub enum AfterChore {
    Run(Chore),
    Finish,
    Fail(Fault),
}

/// The text of a chore.
pub open spec fn chore_sql(chore: Chore) -> Seq<char> {
    match chore {
        Chore::LimitAnalysis => "PRAGMA analysis_limit = 400;"@,
        Chore::Optimize => "PRAGMA optimize;"@,
        Chore::Checkpoint => "PRAGMA wal_checkpoint(TRUNCATE);"@,
        Chore::QueryMode => "PRAGMA auto_vacuum;"@,
        Chore::Reclaim(pages) => "PRAGMA incremental_vacuum("@ + decimal(pages as nat) + ");"@,
    }
}

impl Chore {
    /// The text of the chore.
    pub fn sql(self) -> (text: String)
        ensures
            text@ == chore_sql(self),
    {
        match self {
            Chore::LimitAnalysis => "PRAGMA analysis_limit = 400;".to_owned(),
            Chore::Optimize => "PRAGMA optimize;".to_owned(),
            Chore::Checkpoint => "PRAGMA wal_checkpoint(TRUNCATE);".to_owned(),
            Chore::QueryMode => "PRAGMA auto_vacuum;".to_owned(),
            Chore::Reclaim(pages) => {
                let mut text: String = "PRAGMA incremental_vacuum(".to_owned();
                append_decimal(&mut text, pages as u64);
                text.append(");");
                text
            },
        }
    }
}

impl SqliteStore {
    /// A maintenance pass: the lane it runs in, as one write, and its first chore.
    pub fn maintenance(&self) -> (pass: (Lane, Chore))
        ensures
            pass.0 matches Lane::Retried(name) && name@ == "maintenance"@,
            pass.1 == Chore::LimitAnalysis,
    {
        (Lane::Retried("maintenance"), Chore::LimitAnalysis)
    }

    /// What follows a chore of a maintenance pass. A checkpoint that a reader holds up is
    /// passed over; any other fault ends the pass. Pages are handed back only where that was
    /// asked for and the database is in the mode for it.
    pub fn after_chore(&self, chore: Chore, result: ChoreResult) -> (next: AfterChore)
        ensures
            match result {
                ChoreResult::Faulted(fault) => if chore == Chore::Checkpoint && retriable(fault@) {
                    next == (if self.incremental_vacuum {
                        AfterChore::Run(Chore::QueryMode)
                    } else {
                        AfterChore::Finish
                    })
                } else {
                    next == AfterChore::Fail(fault)
                },
                ChoreResult::Mode(mode) => next == (if chore == Chore::QueryMode && mode
                    == INCREMENTAL_MODE && self.incremental_vacuum_pages > 0 {
                    AfterChore::Run(Chore::Reclaim(self.incremental_vacuum_pages))
                } else {
                    AfterChore::Finish
                }),
                ChoreResult::Done => match chore {
                    Chore::LimitAnalysis => next == AfterChore::Run(Chore::Optimize),
                    Chore::Optimize => next == AfterChore::Run(Chore::Checkpoint),
                    Chore::Checkpoint => next == (if self.incremental_vacuum {
                        AfterChore::Run(Chore::QueryMode)
                    } else {
                        AfterChore::Finish
                    }),
                    Chore::QueryMode | Chore::Reclaim(_) => next == AfterChore::Finish,
                },
            },
    {
        let after_checkpoint = if self.incremental_vacuum {
            AfterChore::Run(Chore::QueryMode)
        } else {
            AfterChore::Finish
        };
        match result {
            ChoreResult::Faulted(fault) => if chore == Chore::Checkpoint && fault.is_retriable() {
                after_checkpoint
            } else {
                AfterChore::Fail(fault)
            },
            ChoreResult::Mode(mode) => if chore == Chore::QueryMode && mode == INCREMENTAL_MODE
                && self.incremental_vacuum_pages > 0 {
                AfterChore::Run(Chore::Reclaim(self.incremental_vacuum_pages))
            } else {
                AfterChore::Finish
            },
            ChoreResult::Done => match chore {
                Chore::LimitAnalysis => AfterChore::Run(Chore::Optimize),
                Chore::Optimize => AfterChore::Run(Chore::Checkpoint),
                Chore::Checkpoint => after_checkpoint,
                Chore::QueryMode => AfterChore::Finish,
                Chore::Reclaim(_) => AfterChore::Finish,
            },
        }
    }
}

// ---------------------------------------------------------------------------------------
// The report

/// What a store uses, as far as that could be found out.
#[derive(Clone, Copy, Debug, PartialEq, Eq, Structural)]
pub struct StorageResourceReport {
    /// A bound on the bytes its page caches hold.
    pub memory_bytes: Option<u64>,
    /// The pages of the database.
    pub pages: Option<u64>,
    /// The pages of the database that are free.
    pub free_pages: Option<u64>,
    /// The bytes of its log.
    pub wal_bytes: Option<u64>,
    /// The bytes it has read. The database does not count them.
    pub io_read_bytes: Option<u64>,
    /// The bytes it has written. The database does not count them.
    pub io_write_bytes: Option<u64>,
}

/// What was read for a report.
#[derive(Clone, Copy, Debug)]
pub struct Readings {
    pub page_size: Option<i64>,
    pub page_count: Option<i64>,
    pub cache_size: Option<i64>,
    pub freelist_count: Option<i64>,
    pub wal_bytes: Option<u64>,
    /// Open write connections.
    pub write_connections: u32,
    /// Open reader connections.
    pub read_connections: u32,
}

pub open spec fn at_least_zero(n: int) -> nat {
    if n < 0 {
        0
    } else {
        n as nat
    }
}

/// A product, cut off at the largest number of sixty-four bits.
pub open spec fn capped(a: nat, b: nat) -> nat {
    if a * b > u64::MAX {
        u64::MAX as nat
    } else {
        a * b
    }
}

/// The bytes one connection's page cache may hold: a negative setting is in KiB, another in
/// pages.
pub open spec fn cache_cap(cache_size: int, page_size: nat) -> nat {
    if cache_size < 0 {
        capped((-cache_size) as nat, 1024)
    } else {
        capped(cache_size as nat, page_size)
    }
}

/// The bound on the bytes of all page caches: each holds no more than its cap, and no more than
/// the database.
pub open spec fn cache_bound(page_size: nat, page_count: nat, cache_size: int, connections: nat)
    -> nat {
    let cap = cache_cap(cache_size, page_size);
    let size = capped(page_count, page_size);
    capped(
        if cap < size {
            cap
        } else {
            size
        },
        connections,
    )
}

/// Every open connection; at least the one that was asked.
pub open spec fn open_connections(r: Readings) -> nat {
    (if r.write_connections < 1 {
        1
    } else {
        r.write_connections as nat
    }) + r.read_connections as nat
}

fn product(a: u64, b: u64) -> (p: u64)
    ensures
        p == capped(a as nat, b as nat),
{
    match a.checked_mul(b) {
        Some(p) => p,
        None => u64::MAX,
    }
}

fn non_negative(n: i64) -> (v: u64)
    ensures
        v == at_least_zero(n as int),
{
    if n < 0 {
        0
    } else {
        n as u64
    }
}

impl StorageResourceReport {
    /// Nothing could be found out.
    pub fn unknown() -> (report: StorageResourceReport)
        ensures
            report == (StorageResourceReport {
                memory_bytes: None,
                pages: None,
                free_pages: None,
                wal_bytes: None,
                io_read_bytes: None,
                io_write_bytes: None,
            }),
    {
        StorageResourceReport {
            memory_bytes: None,
            pages: None,
            free_pages: None,
            wal_bytes: None,
            io_read_bytes: None,
            io_write_bytes: None,
        }
    }

    /// The report from what was read. Without the sizes nothing is claimed.
    pub fn of(r: Readings) -> (report: StorageResourceReport)
        ensures
            match (r.page_size, r.page_count, r.cache_size) {
                (Some(page_size), Some(page_count), Some(cache_size)) => {
                    &&& report.memory_bytes matches Some(n) && n == cache_bound(
                        at_least_zero(page_size as int),
                        at_least_zero(page_count as int),
                        cache_size as int,
                        open_connections(r),
                    )
                    &&& report.pages matches Some(n) && n == at_least_zero(page_count as int)
                    &&& match r.freelist_count {
                        Some(free) => report.free_pages matches Some(n) && n == at_least_zero(
                            free as int,
                        ),
                        None => report.free_pages is None,
                    }
                    &&& report.wal_bytes == r.wal_bytes
                    &&& report.io_read_bytes is None && report.io_write_bytes is None
                },
                _ => report == (StorageResourceReport {
                    memory_bytes: None,
                    pages: None,
                    free_pages: None,
                    wal_bytes: None,
                    io_read_bytes: None,
                    io_write_bytes: None,
                }),
            },
    {
        match (r.page_size, r.page_count, r.cache_size) {
            (Some(page_size), Some(page_count), Some(cache_size)) => {
                let page_size: u64 = non_negative(page_size);
                let page_count: u64 = non_negative(page_count);
                let cap: u64 = if cache_size < 0 {
                    let kib: u64 = if cache_size == i64::MIN {
                        0x8000_0000_0000_0000
                    } else {
                        (-cache_size) as u64
                    };
                    product(kib, 1024)
                } else {
                    product(cache_size as u64, page_size)
                };
                let size: u64 = product(page_count, page_size);
                let each: u64 = if cap < size {
                    cap
                } else {
                    size
                };
                let writers: u64 = if r.write_connections < 1 {
                    1
                } else {
                    r.write_connections as u64
                };
                let connections: u64 = writers + r.read_connections as u64;
                StorageResourceReport {
                    memory_bytes: Some(product(each, connections)),
                    pages: Some(page_count),
                    free_pages: match r.freelist_count {
                        Some(free) => Some(non_negative(free)),
                        None => None,
                    },
                    wal_bytes: r.wal_bytes,
                    io_read_bytes: None,
                    io_write_bytes: None,
                }
            },
            _ => StorageResourceReport::unknown(),
        }
    }
}

impl SqliteStore {
    /// The path of the log beside the database.
    pub fn wal_path(&self) -> (path: String)
        ensures
            path@ == file_path(self.database_path@) + "-wal"@,
    {
        let mut path = filesystem_path(&self.database_path);
        path.append("-wal");
        path
    }
}

/// A bare identifier: letters, digits and underscores.
pub open spec fn is_identifier(s: Seq<char>) -> bool {
    &&& s.len() > 0
    &&& forall|i: int|
        0 <= i < s.len() ==> {
            let c = #[trigger] s[i];
            ('a' <= c <= 'z') || ('A' <= c <= 'Z') || ('0' <= c <= '9') || c == '_'
        }
}

/// The query for the number that a pragma holds; none where the name is no bare identifier.
pub fn pragma_i64(pragma: &str) -> (sql: Option<String>)
    ensures
        is_identifier(pragma@) ==> (sql matches Some(text) && text@ == "SELECT "@ + pragma@
            + " AS value FROM pragma_"@ + pragma@ + "()"@),
        !is_identifier(pragma@) ==> sql is None,
{
    let chars = chars_of(pragma);
    if chars.len() == 0 {
        return None;
    }
    let mut i: usize = 0;
    while i < chars.len()
        invariant
            i <= chars.len(),
            chars@ == pragma@,
            forall|j: int|
                0 <= j < i ==> {
                    let c = #[trigger] chars@[j];
                    ('a' <= c <= 'z') || ('A' <= c <= 'Z') || ('0' <= c <= '9') || c == '_'
                },
        decreases chars.len() - i,
    {
        let c = chars[i];
        if !(('a' <= c && c <= 'z') || ('A' <= c && c <= 'Z') || ('0' <= c && c <= '9') || c
            == '_') {
            return None;
        }
        i = i + 1;
    }
    let mut text: String = "SELECT ".to_owned();
    text.append(pragma);
    text.append(" AS value FROM pragma_");
    text.append(pragma);
    text.append("()");
    Some(text)
}

// ---------------------------------------------------------------------------------------
// Laws

/// A name without a dot in front, behind, or beside another.
pub open spec fn well_dotted(s: Seq<char>) -> bool {
    &&& s.len() > 0 ==> s[0] != '.' && s.last() != '.'
    &&& forall|i: int, j: int|
        0 <= i && j == i + 1 && j < s.len() ==> !(#[trigger] s[i] == '.' && #[trigger] s[j] == '.')
}

/// Joining the parts of a name makes it well dotted and adds no character.
proof fn lemma_dotted(s: Seq<char>)
    ensures
        well_dotted(dotted(s)),
        forall|c: char| #[trigger] dotted(s).contains(c) ==> s.contains(c),
    decreases s.len(),
{
    let stop = |c: char| c == '.';
    lemma_first_place(s, stop);
    let dot = first_place(s, stop);
    let part = s.take(dot);
    assert forall|i: int| 0 <= i < part.len() implies #[trigger] part[i] != '.' by {
        assert(!stop(s[i]));
    }
    assert forall|c: char| #[trigger] part.contains(c) implies s.contains(c) by {
        let i = choose|i: int| 0 <= i < part.len() && part[i] == c;
        assert(s[i] == c);
    }
    if dot < s.len() {
        let tail = s.skip(dot + 1);
        lemma_dotted(tail);
        let rest = dotted(tail);
        assert(s[dot] == '.');
        assert forall|c: char| #[trigger] rest.contains(c) implies s.contains(c) by {
            assert(tail.contains(c));
            let i = choose|i: int| 0 <= i < tail.len() && tail[i] == c;
            assert(s[i + dot + 1] == c);
        }
        if part.len() > 0 && rest.len() > 0 {
            let whole = part + seq!['.'] + rest;
            assert(dotted(s) == whole);
            assert(whole.last() == rest.last());
            assert forall|c: char| #[trigger] whole.contains(c) implies s.contains(c) by {
                let i = choose|i: int| 0 <= i < whole.len() && whole[i] == c;
                if i < part.len() {
                    assert(part[i] == c);
                    assert(part.contains(c));
                } else if i > part.len() {
                    assert(rest[i - part.len() - 1] == c);
                    assert(rest.contains(c));
                } else {
                    assert(c == '.');
                    assert(s.contains(c));
                }
            }
            assert forall|i: int, j: int| 0 <= i && j == i + 1 && j < whole.len() implies !(
            #[trigger] whole[i] == '.' && #[trigger] whole[j] == '.') by {
                if j < part.len() {
                    assert(part[i] != '.');
                } else if i < part.len() {
                    assert(part[i] != '.');
                } else if i == part.len() {
                    assert(whole[j] == rest[0]);
                } else {
                    assert(whole[i] == rest[i - part.len() - 1]);
                    assert(whole[j] == rest[j - part.len() - 1]);
                }
            }
        }
    }
}

/// A well dotted name is left as it is.
proof fn lemma_dotted_stays(s: Seq<char>)
    requires
        well_dotted(s),
    ensures
        dotted(s) == s,
    decreases s.len(),
{
    let stop = |c: char| c == '.';
    lemma_first_place(s, stop);
    let dot = first_place(s, stop);
    if dot < s.len() {
        let tail = s.skip(dot + 1);
        assert(dot > 0);
        assert(s[dot] == '.');
        assert(dot + 1 < s.len());
        assert(tail[0] == s[dot + 1]);
        assert(tail.last() == s.last());
        assert(well_dotted(tail)) by {
            assert forall|i: int, j: int| 0 <= i && j == i + 1 && j < tail.len() implies !(
            #[trigger] tail[i] == '.' && #[trigger] tail[j] == '.') by {
                assert(tail[i] == s[i + dot + 1]);
                assert(tail[j] == s[j + dot + 1]);
            }
        }
        lemma_dotted_stays(tail);
        assert(s.take(dot) + seq!['.'] + tail =~= s);
    } else {
        assert(s.take(dot) =~= s);
    }
}

/// The name of a snapshot is a plain file name: its characters are letters, digits, underscores,
/// hyphens and single dots between others. Such a name is kept as it is.
pub proof fn law_snapshot_names_are_plain(name: Seq<char>)
    ensures
        well_dotted(sanitized(name)),
        forall|i: int| 0 <= i < sanitized(name).len() ==> is_safe(#[trigger] sanitized(name)[i]),
        sanitized(sanitized(name)) == sanitized(name),
{
    let m = masked(name);
    let s = sanitized(name);
    lemma_dotted(m);
    assert forall|i: int| 0 <= i < s.len() implies is_safe(#[trigger] s[i]) by {
        assert(s.contains(s[i]));
        let j = choose|j: int| 0 <= j < m.len() && m[j] == s[i];
        assert(is_safe(m[j]));
    }
    assert(masked(s) =~= s);
    lemma_dotted_stays(s);
}

/// What a single-quoted SQL literal holds, read from behind its opening quote, and what stands
/// behind its closing one.
pub open spec fn literal_value(s: Seq<char>) -> Option<(Seq<char>, Seq<char>)>
    decreases s.len(),
{
    if s.len() == 0 {
        None
    } else if s[0] == '\'' {
        if s.len() >= 2 && s[1] == '\'' {
            match literal_value(s.skip(2)) {
                Some((value, rest)) => Some((seq!['\''] + value, rest)),
                None => None,
            }
        } else {
            Some((seq![], s.skip(1)))
        }
    } else {
        match literal_value(s.skip(1)) {
            Some((value, rest)) => Some((seq![s[0]] + value, rest)),
            None => None,
        }
    }
}

/// The statement that writes a snapshot names exactly its path, whatever quotes the path holds.
pub proof fn law_snapshot_goes_to_its_path(path: Seq<char>)
    ensures
        literal_value(doubled(path) + seq!['\'']) == Some((path, Seq::<char>::empty())),
    decreases path.len(),
{
    let text = doubled(path) + seq!['\''];
    if path.len() == 0 {
        assert(text =~= seq!['\'']);
        assert(text.skip(1) =~= Seq::<char>::empty());
    } else {
        let tail = path.skip(1);
        law_snapshot_goes_to_its_path(tail);
        assert(seq![path[0]] + tail =~= path);
        if path[0] == '\'' {
            assert(text.skip(2) =~= doubled(tail) + seq!['\'']);
        } else {
            assert(text.skip(1) =~= doubled(tail) + seq!['\'']);
        }
    }
}

/// No more is reported than every connection's cap, and no more than every connection holding
/// the whole database.
pub proof fn law_report_is_bounded(
    page_size: nat,
    page_count: nat,
    cache_size: int,
    connections: nat,
)
    ensures
        cache_bound(page_size, page_count, cache_size, connections) <= cache_cap(
            cache_size,
            page_size,
        ) * connections,
        cache_bound(page_size, page_count, cache_size, connections) <= page_count * page_size
            * connections,
{
    let cap = cache_cap(cache_size, page_size);
    let size = capped(page_count, page_size);
    let each = if cap < size {
        cap
    } else {
        size
    };
    assert(each * connections <= cap * connections) by (nonlinear_arith)
        requires
            each <= cap,
    ;
    assert(each * connections <= page_count * page_size * connections) by (nonlinear_arith)
        requires
            each <= page_count * page_size,
    ;
}

} // verus!
