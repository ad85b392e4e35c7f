//! What holds of a store as it is opened, run and looked after: its pauses, its settings, where its
//! files lie, what it reports and what its errors say.

use crate::config::{
    connection_pragmas, options_of, timeout_ms, ConnectionOptions, SqliteStoreConfig, Synchronous,
    Timeout,
};
use crate::error::{retriable, wording, CommitBarrierError, Fault, FaultView, StoreError};
use crate::location::{database_path, same_ignoring_case, shared_cache};
use crate::open::{
    declined_reason, finishes, settles, write_connections, OpenAction, OpenPhase, OpenStep, Opening,
};
use crate::retry::{attempts_made, contention_report, delay_after, total_delay, MAX_RETRIES};
use crate::text::{
    decimal, first_place, lemma_first_place, lemma_first_place_is, occurs_at, occurs_in,
    signed_decimal,
};
use crate::upkeep::{
    at_least_zero, cache_bound, chore_sql, dotted, doubled, is_identifier, joined,
    law_snapshot_goes_to_its_path, literal_value, masked, open_connections, sanitized,
    snapshot_path, snapshot_sql, Chore, Readings, INCREMENTAL_MODE, MAX_SNAPSHOT_NAME,
};
use vstd::prelude::*;

verus! {

// ---------------------------------------------------------------------------------------
// Attempts and pauses

/// The first pause is ten milliseconds, each of the next four is twice the one before, and then
/// they stay as they are. All pauses up to an attempt are those before it and its own.
pub proof fn law_pauses_double(attempt: nat)
    ensures
        delay_after(0) == 10,
        attempt < 4 ==> delay_after(attempt + 1) == 2 * delay_after(attempt),
        attempt >= 4 ==> delay_after(attempt) == 160,
        total_delay(0) == 0,
        total_delay(attempt + 1) - total_delay(attempt) == delay_after(attempt),
{
    reveal_with_fuel(delay_after, 7);
}

/// Contention passes where the database gives no more precise kind of error and speaks, anywhere
/// in its message, of something locked or busy; and nowhere else.
pub proof fn law_contention_is_told_by_its_words(before: Seq<char>, after: Seq<char>)
    ensures
        retriable(FaultView::Unknown(before + "locked"@ + after)),
        retriable(FaultView::Unknown(before + "busy"@ + after)),
        retriable(FaultView::Unknown(before)) ==> exists|a: Seq<char>, b: Seq<char>|
            before == #[trigger] (a + "locked"@ + b) || before == a + "busy"@ + b,
        !retriable(FaultView::Other(before)),
        !retriable(FaultView::NotFound),
{
    lemma_found(before, "locked"@, after);
    lemma_found(before, "busy"@, after);
    if occurs_in(before, "locked"@) {
        let (a, b) = lemma_parted(before, "locked"@);
        assert(before == a + "locked"@ + b);
    } else if occurs_in(before, "busy"@) {
        let (a, b) = lemma_parted(before, "busy"@);
        let there = a + "locked"@ + b;
        assert(before == there || before == a + "busy"@ + b);
    }
}

proof fn lemma_found(before: Seq<char>, word: Seq<char>, after: Seq<char>)
    ensures
        occurs_in(before + word + after, word),
{
    let whole = before + word + after;
    assert(whole.subrange(before.len() as int, (before.len() + word.len()) as int) =~= word);
    assert(occurs_at(whole, word, before.len() as int));
}

proof fn lemma_parted(whole: Seq<char>, word: Seq<char>) -> (parts: (Seq<char>, Seq<char>))
    requires
        occurs_in(whole, word),
    ensures
        whole == parts.0 + word + parts.1,
{
    let i = choose|i: int| #[trigger] occurs_at(whole, word, i);
    let parts = (whole.take(i), whole.skip(i + word.len()));
    assert(whole =~= parts.0 + word + parts.1);
    parts
}

/// An operation stops at the first attempt that does not end in passing contention, or when no
/// attempt is left, and not before.
pub proof fn law_attempts_stop_where_they_must(
    faults: Seq<FaultView>,
    attempt: nat,
    retries: nat,
)
    requires
        attempt <= retries,
    ensures
        ({
            let n = attempts_made(faults, attempt, retries);
            &&& 1 <= n <= faults.len() + 1
            &&& attempt + n <= retries + 1
            &&& forall|i: int| 0 <= i < n - 1 ==> retriable(#[trigger] faults[i])
            &&& n <= faults.len() && attempt + n <= retries ==> !retriable(faults[n - 1])
        }),
    decreases faults.len(),
{
    if faults.len() > 0 && retriable(faults[0]) && attempt < retries {
        let rest = faults.drop_first();
        law_attempts_stop_where_they_must(rest, attempt + 1, retries);
        let n = attempts_made(faults, attempt, retries);
        assert forall|i: int| 0 <= i < n - 1 implies retriable(#[trigger] faults[i]) by {
            if i > 0 {
                assert(retriable(rest[i - 1]));
            }
        }
    }
}

/// A report of contention names the operation in front and ends in the database's own words; in
/// between it counts the attempts from one, of six, and gives the pause.
pub proof fn law_reports_say_what_is_known(op: Seq<char>, attempt: nat, message: Seq<char>)
    ensures
        contention_report(op, attempt, message) == op + contention_report(
            seq![],
            attempt,
            seq![],
        ) + message,
        contention_report(seq![], attempt, seq![]) == " busy/locked, retry "@ + decimal(attempt + 1)
            + "/6 in "@ + decimal(delay_after(attempt)) + "ms: "@,
{
    reveal_strlit("/");
    reveal_strlit(" in ");
    reveal_strlit("/6 in ");
    assert(contention_report(op, attempt, message) =~= op + contention_report(
        seq![],
        attempt,
        seq![],
    ) + message);
    assert(decimal(6) =~= seq!['6']) by {
        assert(('0' as u32 + 6) as char == '6');
    }
    assert("/"@ + decimal(6) + " in "@ =~= "/6 in "@);
    assert(contention_report(seq![], attempt, seq![]) =~= " busy/locked, retry "@ + decimal(
        attempt + 1,
    ) + ("/"@ + decimal(6) + " in "@) + decimal(delay_after(attempt)) + "ms: "@);
}

// ---------------------------------------------------------------------------------------
// Settings

/// The nanoseconds of a span.
pub open spec fn nanoseconds(t: Timeout) -> int {
    t.secs * 1_000_000_000 + t.nanos
}

/// A timeout is given in whole milliseconds, rounded down, but at least one where the span is not
/// zero and at most what fits 31 bits; a longer span never gets a shorter timeout.
pub proof fn law_timeouts_are_rounded_down(t: Timeout, longer: Timeout)
    ensures
        nanoseconds(t) == 0 <==> timeout_ms(t) == 0,
        0 < nanoseconds(t) < 1_000_000 ==> timeout_ms(t) == 1,
        1_000_000 <= nanoseconds(t) < 2_147_483_648_000_000 ==> timeout_ms(t) * 1_000_000
            <= nanoseconds(t) < (timeout_ms(t) + 1) * 1_000_000,
        nanoseconds(t) >= 2_147_483_648_000_000 ==> timeout_ms(t) == 2_147_483_647,
        nanoseconds(t) <= nanoseconds(longer) ==> timeout_ms(t) <= timeout_ms(longer),
{
}

/// A connection is set up as the configuration says: its cache, its memory map, its level of
/// durability and whether it may write are those asked for.
pub proof fn law_connections_follow_the_configuration(c: SqliteStoreConfig, query_only: bool)
    ensures
        options_of(c, query_only).cache_size_kib == c.cache_size_kib,
        options_of(c, query_only).mmap_size == c.mmap_size,
        options_of(c, query_only).synchronous == c.synchronous,
        options_of(c, query_only).query_only == query_only,
        options_of(c, query_only).busy_timeout_ms == timeout_ms(c.busy_timeout),
{
    law_timeouts_are_rounded_down(c.busy_timeout, c.busy_timeout);
}

/// Every new connection waits for locks first of all, checks foreign keys, bounds its log and keeps
/// temporary data in memory. The level of durability and the size of its cache, in KiB, are those
/// of its options; a memory map is set up only where one of some size is asked for, and only a
/// connection for reading refuses writes.
pub proof fn law_every_connection_is_set_up(o: ConnectionOptions)
    ensures
        ({
            let list = connection_pragmas(o);
            &&& list[0] == "PRAGMA busy_timeout = "@ + decimal(o.busy_timeout_ms as nat) + ";"@
            &&& o.synchronous == Synchronous::Off ==> list[1] == "PRAGMA synchronous = OFF;"@
            &&& o.synchronous == Synchronous::Normal ==> list[1] == "PRAGMA synchronous = NORMAL;"@
            &&& o.synchronous == Synchronous::Full ==> list[1] == "PRAGMA synchronous = FULL;"@
            &&& list.contains("PRAGMA cache_size = -"@ + decimal(o.cache_size_kib as nat) + ";"@)
            &&& list.contains("PRAGMA temp_store = memory;"@)
            &&& list.contains("PRAGMA foreign_keys = ON;"@)
            &&& list.contains("PRAGMA journal_size_limit = 33554432;"@)
            &&& o.mmap_size matches Some(n) ==> n > 0 ==> list.contains(
                "PRAGMA mmap_size = "@ + decimal(n as nat) + ";"@,
            )
            &&& o.query_only ==> list.last() == "PRAGMA query_only = 1;"@
            &&& list.len() == 6 + (if o.mmap_size matches Some(n) && n > 0 {
                1int
            } else {
                0int
            }) + (if o.query_only {
                1int
            } else {
                0int
            })
        }),
{
    let list = connection_pragmas(o);
    reveal_strlit("PRAGMA synchronous = ");
    reveal_strlit("OFF");
    reveal_strlit("NORMAL");
    reveal_strlit("FULL");
    reveal_strlit(";");
    reveal_strlit("PRAGMA synchronous = OFF;");
    reveal_strlit("PRAGMA synchronous = NORMAL;");
    reveal_strlit("PRAGMA synchronous = FULL;");
    assert("PRAGMA synchronous = "@ + "OFF"@ + ";"@ =~= "PRAGMA synchronous = OFF;"@);
    assert("PRAGMA synchronous = "@ + "NORMAL"@ + ";"@ =~= "PRAGMA synchronous = NORMAL;"@);
    assert("PRAGMA synchronous = "@ + "FULL"@ + ";"@ =~= "PRAGMA synchronous = FULL;"@);
    assert(list[2] == "PRAGMA cache_size = -"@ + decimal(o.cache_size_kib as nat) + ";"@);
    assert(list[3] == "PRAGMA temp_store = memory;"@);
    assert(list[4] == "PRAGMA foreign_keys = ON;"@);
    assert(list[5] == "PRAGMA journal_size_limit = 33554432;"@);
    if let Some(n) = o.mmap_size {
        if n > 0 {
            assert(list[6] == "PRAGMA mmap_size = "@ + decimal(n as nat) + ";"@);
        }
    }
}

// ---------------------------------------------------------------------------------------
// Opening

/// There is always a connection that writes, and there are as many as were asked for beyond that.
pub proof fn law_there_is_a_write_connection(c: SqliteStoreConfig)
    ensures
        write_connections(c) >= 1,
        c.pool_size >= 1 ==> write_connections(c) == c.pool_size,
        c.pool_size == 0 ==> write_connections(c) == 1,
{
}

/// Reader connections can be had exactly where there may be more than one connection, the journal
/// is a write-ahead log, however its name is spelled, and the cache is not shared. The build is
/// the first reason to be given, the journal the second, the cache the last.
pub proof fn law_readers_are_declined_for_a_reason(web: bool, mode: Seq<char>, url: Seq<char>)
    ensures
        declined_reason(web, mode, url) is None <==> !web && same_ignoring_case(mode, "wal"@)
            && !shared_cache(url),
        web ==> declined_reason(web, mode, url) == Some(
            "the web build has a single connection per database"@,
        ),
        !web && !same_ignoring_case(mode, "wal"@) ==> declined_reason(web, mode, url) == Some(
            "journal_mode is '"@ + mode + "', not WAL"@,
        ),
        !web && same_ignoring_case(mode, "wal"@) && shared_cache(url) ==> declined_reason(
            web,
            mode,
            url,
        ) == Some("the URI opts into shared cache, whose table locks block the writer"@),
{
}

/// A store that was opened is for the account that asked, at the path that the URL names, with the
/// connections of the configuration; its reads are safe beside the writer exactly where nothing
/// spoke against reader connections, and it has them where, besides, some were asked for. A URL
/// that names no file is the one reason why a last step fails.
pub proof fn law_opened_stores_follow_the_configuration(o: Opening, action: OpenAction)
    requires
        finishes(o, action),
    ensures
        action is Ready <==> database_path(o.url@) is Some,
        action matches OpenAction::Ready(store) ==> {
            &&& database_path(o.url@) == Some(store.database_path@)
            &&& store.device_id == o.device_id
            &&& store.pool_size >= 1
            &&& o.config.pool_size >= 1 ==> store.pool_size == o.config.pool_size
            &&& store.snapshot_safe <==> o.declined is None
            &&& store.readers is Some <==> o.declined is None && o.config.read_pool_size > 0
            &&& store.readers matches Some(n) ==> n == o.config.read_pool_size
            &&& store.incremental_vacuum == o.config.incremental_vacuum
            &&& store.incremental_vacuum_pages == o.config.incremental_vacuum_pages
        },
        !(action is Ready) ==> (action matches OpenAction::Fail(StoreError::InvalidConfig(m)) && m@
            == "Snapshot not supported for in-memory databases"@),
{
}

/// Once writes are durable, reader connections are opened exactly where some were asked for and
/// nothing speaks against them: as many as were asked for, and none of them may write.
pub proof fn law_readers_are_opened_where_they_can_be(o: Opening, step: OpenStep)
    requires
        settles(o, step),
    ensures
        step.action is OpenReaders <==> o.config.read_pool_size > 0 && o.declined is None,
        step.action matches OpenAction::OpenReaders { size, options } ==> {
            &&& size == o.config.read_pool_size
            &&& options.query_only
            &&& options.synchronous == o.config.synchronous
            &&& options.cache_size_kib == o.config.cache_size_kib
            &&& options.mmap_size == o.config.mmap_size
            &&& step.opening.phase == OpenPhase::Readers
            &&& step.opening.url == o.url && step.opening.device_id == o.device_id
            &&& step.opening.config == o.config && step.opening.declined == o.declined
        },
        !(step.action is OpenReaders) ==> finishes(o, step.action),
{
}

/// An opening goes from phase to phase as one opening: the URL, the account, the configuration and
/// what is known of readers stay.
pub proof fn law_phases_belong_to_one_opening(o: Opening, phase: OpenPhase)
    ensures
        o.at(phase).phase == phase,
        o.at(phase).url == o.url,
        o.at(phase).device_id == o.device_id,
        o.at(phase).config == o.config,
        o.at(phase).has_barrier == o.has_barrier,
        o.at(phase).web == o.web,
        o.at(phase).declined == o.declined,
{
}

// ---------------------------------------------------------------------------------------
// Reports

/// A negative reading counts as zero, and any other as it is.
pub proof fn law_readings_are_not_negative(n: int)
    ensures
        n >= 0 ==> at_least_zero(n) == n,
        n <= 0 ==> at_least_zero(n) == 0,
{
}

/// Every open connection counts, and at least the one that was asked.
pub proof fn law_every_connection_counts(r: Readings)
    ensures
        r.write_connections >= 1 ==> open_connections(r) == r.write_connections
            + r.read_connections,
        r.write_connections == 0 ==> open_connections(r) == 1 + r.read_connections,
{
}

/// The bound on the page caches is the smaller of what one may hold, in KiB where the setting is
/// negative and in pages otherwise, and of the whole database, once for each connection; and what
/// 64 bits cannot hold is cut off.
pub proof fn law_the_bound_is_the_smaller_of_two(
    page_size: nat,
    page_count: nat,
    cache_size: int,
    connections: nat,
)
    requires
        connections >= 1,
    ensures
        ({
            let cap = if cache_size < 0 {
                -cache_size * 1024
            } else {
                cache_size * page_size
            };
            let size = page_count * page_size;
            let all = (if cap <= size {
                cap
            } else {
                size as int
            }) * connections;
            &&& all <= u64::MAX ==> cache_bound(page_size, page_count, cache_size, connections)
                == all
            &&& all > u64::MAX ==> cache_bound(page_size, page_count, cache_size, connections)
                == u64::MAX
        }),
{
    let cap = if cache_size < 0 {
        -cache_size * 1024
    } else {
        cache_size * page_size
    };
    let size = page_count * page_size;
    let each = if cap <= size {
        cap
    } else {
        size as int
    };
    assert(cap >= 0) by (nonlinear_arith)
        requires
            cap == (if cache_size < 0 {
                -cache_size * 1024
            } else {
                cache_size * page_size
            }),
            page_size >= 0,
    ;
    if each > u64::MAX {
        assert(each * connections >= each) by (nonlinear_arith)
            requires
                each >= 0,
                connections >= 1,
        ;
        assert(u64::MAX * connections >= u64::MAX) by (nonlinear_arith)
            requires
                connections >= 1,
        ;
    }
}

/// A bare identifier holds word characters and nothing else: two make one, and any other
/// character spoils it.
pub proof fn law_identifiers_are_bare(a: Seq<char>, b: Seq<char>, c: char)
    ensures
        is_identifier(a) && is_identifier(b) ==> is_identifier(a + b),
        is_identifier(seq![c]) <==> ('a' <= c <= 'z') || ('A' <= c <= 'Z') || ('0' <= c <= '9') || c
            == '_',
        !is_identifier(seq![c]) ==> !is_identifier(a + seq![c] + b),
        !is_identifier(seq![]),
{
    let one = seq![c];
    let whole = a + one + b;
    assert(one[0] == c);
    assert(whole[a.len() as int] == c);
    let both = a + b;
    if is_identifier(a) && is_identifier(b) {
        assert forall|i: int| 0 <= i < both.len() implies ({
            let d = #[trigger] both[i];
            ('a' <= d <= 'z') || ('A' <= d <= 'Z') || ('0' <= d <= '9') || d == '_'
        }) by {
            if i < a.len() {
                assert(both[i] == a[i]);
            } else {
                assert(both[i] == b[i - a.len()]);
            }
        }
    }
}

// ---------------------------------------------------------------------------------------
// Maintenance

/// What maintenance says to the database: it samples a bounded number of rows, cuts the log to
/// nothing once it is written back, and hands back just as many pages as it is to.
pub proof fn law_chores_say_what_they_do(pages: u32)
    ensures
        chore_sql(Chore::LimitAnalysis) == "PRAGMA analysis_limit = 400;"@,
        chore_sql(Chore::Optimize) == "PRAGMA optimize;"@,
        chore_sql(Chore::Checkpoint) == "PRAGMA wal_checkpoint(TRUNCATE);"@,
        chore_sql(Chore::QueryMode) == "PRAGMA auto_vacuum;"@,
        chore_sql(Chore::Reclaim(pages)) == "PRAGMA incremental_vacuum("@ + decimal(pages as nat)
            + ");"@,
{
}

// ---------------------------------------------------------------------------------------
// Errors

/// An error that carries a text says just that text, and one about an account names it.
pub proof fn law_errors_say_what_they_carry(text: String, id: i32, error: CommitBarrierError)
    ensures
        wording(StoreError::Database(Fault::Unknown(text))) == text@,
        wording(StoreError::Database(Fault::Other(text))) == text@,
        wording(StoreError::Database(Fault::NotFound)) == "Record not found"@,
        wording(StoreError::CommitBarrier(error)) == "post-commit durability barrier failed"@,
        wording(StoreError::Connection(text)) == text@,
        wording(StoreError::InvalidConfig(text)) == text@,
        wording(StoreError::Migration(text)) == text@,
        wording(StoreError::Serialization(text)) == text@,
        wording(StoreError::Validation(text)) == text@,
        wording(StoreError::DeviceNotFound(id)) == "no account with the id "@ + signed_decimal(
            id as int,
        ),
{
}

// ---------------------------------------------------------------------------------------
// Snapshots

/// A character that a snapshot's name keeps.
pub open spec fn is_kept(c: char) -> bool {
    ||| 'a' <= c <= 'z'
    ||| 'A' <= c <= 'Z'
    ||| '0' <= c <= '9'
    ||| c == '_'
    ||| c == '-'
}

/// A name without dots keeps its length: letters, digits, underscores and hyphens stay where they
/// are, and an underscore stands for anything else.
pub proof fn law_names_are_masked_one_for_one(name: Seq<char>)
    requires
        !name.contains('.'),
    ensures
        sanitized(name).len() == name.len(),
        forall|i: int| 0 <= i < name.len() && is_kept(#[trigger] name[i]) ==> sanitized(name)[i]
            == name[i],
        forall|i: int| 0 <= i < name.len() && !is_kept(#[trigger] name[i]) ==> sanitized(name)[i]
            == '_',
{
    let m = masked(name);
    let stop = |c: char| c == '.';
    assert forall|i: int| 0 <= i < m.len() implies !stop(#[trigger] m[i]) by {
        assert(name.contains(name[i]));
    }
    lemma_first_place_is(m, stop, m.len() as int);
    assert(m.take(m.len() as int) =~= m);
}

/// The parts of a name at a dot are kept apart by one dot where something is left of both; a part
/// of which nothing is left takes its dot along.
pub proof fn law_names_are_kept_by_their_parts(a: Seq<char>, b: Seq<char>)
    ensures
        ({
            let whole = sanitized(a + seq!['.'] + b);
            let left = sanitized(a);
            let right = sanitized(b);
            &&& left.len() > 0 && right.len() > 0 ==> whole == left + seq!['.'] + right
            &&& left.len() == 0 ==> whole == right
            &&& right.len() == 0 ==> whole == left
        }),
{
    let x = masked(a);
    let y = masked(b);
    assert(masked(a + seq!['.'] + b) =~= x + seq!['.'] + y);
    lemma_parts(x, y);
}

proof fn lemma_parts(x: Seq<char>, y: Seq<char>)
    ensures
        dotted(x + seq!['.'] + y) == joined(dotted(x), dotted(y)),
    decreases x.len(),
{
    let stop = |c: char| c == '.';
    let whole = x + seq!['.'] + y;
    lemma_first_place(x, stop);
    let dot = first_place(x, stop);
    assert forall|i: int| 0 <= i < dot implies !stop(#[trigger] whole[i]) by {
        assert(!stop(x[i]));
    }
    if dot < x.len() {
        assert(whole[dot] == x[dot]);
    } else {
        assert(whole[dot] == '.');
    }
    lemma_first_place_is(whole, stop, dot);
    assert(whole.take(dot) =~= x.take(dot));
    if dot < x.len() {
        let rest = x.skip(dot + 1);
        lemma_parts(rest, y);
        assert(whole.skip(dot + 1) =~= rest + seq!['.'] + y);
        let p = x.take(dot);
        let q = dotted(rest);
        let r = dotted(y);
        assert(joined(joined(p, q), r) =~= joined(p, joined(q, r)));
    } else {
        assert(whole.skip(dot + 1) =~= y);
        assert(x.take(dot) =~= x);
    }
}

/// What bounds a store: six attempts in all, snapshot names of a hundred characters, and the one
/// vacuum mode in which pages are handed back.
pub proof fn law_the_bounds_of_a_store()
    ensures
        MAX_RETRIES + 1 == 6,
        MAX_SNAPSHOT_NAME == 100,
        INCREMENTAL_MODE == 2,
{
}

/// A snapshot lies beside the database: its path is the database's, then the time, then the name.
pub proof fn law_snapshots_lie_beside_the_database(
    db_path: Seq<char>,
    timestamp: int,
    name: Seq<char>,
)
    ensures
        snapshot_path(db_path, timestamp, name) == db_path + ".snapshot-"@ + signed_decimal(
            timestamp,
        ) + "-"@ + name,
        snapshot_path(db_path, timestamp, name).take(db_path.len() as int) == db_path,
{
    assert(snapshot_path(db_path, timestamp, name).take(db_path.len() as int) =~= db_path);
}

/// The statement that takes a snapshot is one literal behind `VACUUM INTO`, and the literal is the
/// path, whatever quotes the path holds.
pub proof fn law_the_statement_names_the_path(path: Seq<char>)
    ensures
        snapshot_sql(path).take(13) == "VACUUM INTO '"@,
        literal_value(snapshot_sql(path).skip(13)) == Some((path, Seq::<char>::empty())),
{
    reveal_strlit("VACUUM INTO '");
    reveal_strlit("'");
    law_snapshot_goes_to_its_path(path);
    assert("'"@ =~= seq!['\'']);
    assert(snapshot_sql(path).take(13) =~= "VACUUM INTO '"@);
    assert(snapshot_sql(path).skip(13) =~= doubled(path) + seq!['\'']);
}

} // verus!
