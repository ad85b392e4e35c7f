//! The errors of the store, and how the database's own errors are told apart.

use crate::text::{append_signed, is_in, occurs_in, signed_decimal};
use diesel::result::{DatabaseErrorKind, Error as DieselError};
use vstd::prelude::*;

verus! {

/// The errors that Diesel returns.
#[verifier::external_type_specification]
#[verifier::external_body]
pub struct ExDieselError(diesel::result::Error);

/// What the store needs to know of an error of the database.
#[derive(Debug)]
pub enum Fault {
    /// A query that had to find a row found none.
    NotFound,
    /// The database failed without a more precise kind, with this message. A busy and a locked
    /// database are reported so.
    Unknown(String),
    /// Any other error, described.
    Other(String),
}

/// What a [`Fault`] stands for.
pub enum FaultView {
    NotFound,
    Unknown(Seq<char>),
    Other(Seq<char>),
}

impl View for Fault {
    type V = FaultView;

    open spec fn view(&self) -> FaultView {
        match self {
            Fault::NotFound => FaultView::NotFound,
            Fault::Unknown(m) => FaultView::Unknown(m@),
            Fault::Other(m) => FaultView::Other(m@),
        }
    }
}

/// The kind and the message of an error of the database.
pub uninterp spec fn fault_of(error: diesel::result::Error) -> FaultView;

/// The variant of a `diesel::result::Error`: `NotFound`; `DatabaseError` of the kind `Unknown`,
/// with the text that `DatabaseErrorInformation::message` gives; or any other, with its
/// `Display` text. Which of them an error is, and what its text says, has a name and is not
/// stated further.
#[verifier::external_body]
fn diesel_fault(error: &diesel::result::Error) -> (fault: Fault)
    ensures
        fault@ == fault_of(*error),
{
    match error {
        DieselError::NotFound => Fault::NotFound,
        DieselError::DatabaseError(DatabaseErrorKind::Unknown, info) => Fault::Unknown(
            info.message().to_string(),
        ),
        other => Fault::Other(other.to_string()),
    }
}

/// A failed store operation.
#[derive(Debug)]
pub enum StoreError {
    /// No connection could be had.
    Connection(String),
    /// The database failed.
    Database(Fault),
    /// The write is in the database, but the durability hook failed after it.
    CommitBarrier(CommitBarrierError),
    /// There is no such account.
    DeviceNotFound(i32),
    /// The configuration does not allow the operation.
    InvalidConfig(String),
    /// A migration failed.
    Migration(String),
    /// A value could not be encoded or decoded.
    Serialization(String),
    /// A stored value is not of the form it must have.
    Validation(String),
}

/// A write reached the database's commit boundary, but its durability hook failed afterwards.
/// The change stands in the live connection; callers keep the state they need to try again.
#[derive(Debug)]
pub struct CommitBarrierError(pub Box<StoreError>);

/// The contention that passes: the message of an error without a more precise kind speaks of
/// a locked or busy database.
pub open spec fn retriable(fault: FaultView) -> bool {
    match fault {
        FaultView::Unknown(message) => occurs_in(message, "locked"@) || occurs_in(
            message,
            "busy"@,
        ),
        _ => false,
    }
}

impl Fault {
    /// Whether the operation is worth another attempt.
    pub fn is_retriable(&self) -> (b: bool)
        ensures
            b == retriable(self@),
    {
        match self {
            Fault::Unknown(message) => is_in(message, "locked") || is_in(message, "busy"),
            _ => false,
        }
    }

    /// What the store needs to know of an error of the database.
    pub fn of(error: &diesel::result::Error) -> (fault: Fault)
        ensures
            fault@ == fault_of(*error),
    {
        diesel_fault(error)
    }
}

/// What an error says to a person.
pub open spec fn wording(error: StoreError) -> Seq<char> {
    match error {
        StoreError::Connection(text) => text@,
        StoreError::Database(fault) => match fault@ {
            FaultView::NotFound => "Record not found"@,
            FaultView::Unknown(text) => text,
            FaultView::Other(text) => text,
        },
        StoreError::CommitBarrier(_) => "post-commit durability barrier failed"@,
        StoreError::DeviceNotFound(id) => "no account with the id "@ + signed_decimal(id as int),
        StoreError::InvalidConfig(text) => text@,
        StoreError::Migration(text) => text@,
        StoreError::Serialization(text) => text@,
        StoreError::Validation(text) => text@,
    }
}

impl StoreError {
    /// What the error says to a person.
    pub fn message(&self) -> (text: String)
        ensures
            text@ == wording(*self),
    {
        match self {
            StoreError::Connection(text) => text.clone(),
            StoreError::Database(Fault::NotFound) => "Record not found".to_string(),
            StoreError::Database(Fault::Unknown(text)) => text.clone(),
            StoreError::Database(Fault::Other(text)) => text.clone(),
            StoreError::CommitBarrier(_) => "post-commit durability barrier failed".to_string(),
            StoreError::DeviceNotFound(id) => {
                let mut text = "no account with the id ".to_string();
                append_signed(&mut text, *id as i64);
                text
            },
            StoreError::InvalidConfig(text) => text.clone(),
            StoreError::Migration(text) => text.clone(),
            StoreError::Serialization(text) => text.clone(),
            StoreError::Validation(text) => text.clone(),
        }
    }
}

/// Whether an error of the database is contention that passes.
pub fn is_retriable_sqlite_error(error: &diesel::result::Error) -> (b: bool)
    ensures
        b == retriable(fault_of(*error)),
{
    Fault::of(error).is_retriable()
}

/// Translates the fault that a lifecycle operation reports where the account's row is absent
/// into the error that callers look for. Any other error passes through.
pub fn missing_device(error: StoreError, device_id: i32) -> (e: StoreError)
    ensures
        error matches StoreError::Database(f) && f is NotFound ==> e == StoreError::DeviceNotFound(
            device_id,
        ),
        !(error matches StoreError::Database(f) && f is NotFound) ==> e == error,
{
    match error {
        StoreError::Database(Fault::NotFound) => StoreError::DeviceNotFound(device_id),
        other => other,
    }
}

/// The error of a write whose durability hook failed.
pub fn commit_barrier_error(error: StoreError) -> (e: StoreError)
    ensures
        e == StoreError::CommitBarrier(CommitBarrierError(Box::new(error))),
{
    StoreError::CommitBarrier(CommitBarrierError(Box::new(error)))
}

} // verus!
