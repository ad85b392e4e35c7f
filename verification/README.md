# sqlite-storage

The storage of messaging accounts in a SQLite database, as verified Rust: identities, sessions
and prekeys, application state, groups, the device registry, tokens, message secrets and the
accounts themselves. Several accounts share one database, and every row is stamped with the
account it belongs to.

## Layout

- `src/` is the library. All of it is verified with Verus.
  - `value`, `schema`, `sql`: values, tables and statements, and the SQL text of each statement
    with the values it binds.
  - `model`, `pattern`, `merge`, `plan`, `effects`, `binding`: what the database holds, what
    statements and queries do to it, and the plans that operations consist of.
  - `store`, `account`, `signal`, `app_state`, `groups`, `mapping`, `registry`, `tokens`,
    `outbox`, `secrets`, `device`, `load`: the operations, and how the rows they get back are
    read. `rows` and `cast` read a value as a number, a text or bytes.
  - `location`, `config`, `open`, `retry`, `upkeep`, `error`, `keys`, `text`: where a
    database is, how it is opened and kept, what is tried again, and the parts they share.
  - `laws`, and the last section of most modules: what holds of the operations together.
- `app/` runs the plans with Diesel on a pool of connections and offers every operation as a
  future. The embedder brings the migrations and the codecs of its own types.
- `tests/rules.rs` runs the rules that need no database, `tests/database.rs` runs the plans on a
  SQLite database in memory.

## What is believed

`model` says what SQLite does with a statement: which it refuses, inserts with their conflict
clauses, updates, deletions with the one foreign key that cascades, and queries with their order
and limit. A plan one of whose statements is refused leaves the database as it was. The
operations are proved against that description, and so is the text of each statement against its
structure. That SQLite, given the text, does what `model` says of the structure is not proved;
`tests/database.rs` exercises it on the SQLite that `libsqlite3-sys` bundles.

A value that is stored under another class than its column's is converted as Diesel and SQLite
convert it. `cast` states the conversions, and `tests/database.rs` compares them with what Diesel
reads.

The errors of Diesel reach the library through `error::Fault`, which tells a missing row, an
error without a more precise kind and any other apart. `String::push` and `String::from_utf8`
are believed to do what their documentation says.
