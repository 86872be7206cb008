//! The command lifecycle: named status codes and the transition table.
use vstd::prelude::*;

verus! {

/// Command waits in the queue; no device has claimed it yet.
pub const STATUS_PENDING: i64 = 0;

/// A device has claimed the command through dispatch.
pub const STATUS_FETCHED: i64 = 1;

/// The device reported that it is executing the command.
pub const STATUS_PROCESSING: i64 = 2;

/// An image was uploaded for the command; the lifecycle is finished.
pub const STATUS_COMPLETE: i64 = 3;

/// The device could not fetch the command's payload.
pub const STATUS_FETCH_FAILED: i64 = -1;

/// The device failed while executing the command.
pub const STATUS_PROCESS_FAILED: i64 = -2;

/// An operator retired the command; the row is kept for the record.
pub const STATUS_SOFT_DELETED: i64 = -6;

/// Set internally when a dispatched command's target or position does not
/// resolve to a known enumeration; terminal.
pub const STATUS_INVALID_TARGET: i64 = -9;

/// The closed set of status codes a command may carry.
pub open spec fn valid_status(s: i64) -> bool {
    ||| s == STATUS_PENDING
    ||| s == STATUS_FETCHED
    ||| s == STATUS_PROCESSING
    ||| s == STATUS_COMPLETE
    ||| s == STATUS_FETCH_FAILED
    ||| s == STATUS_PROCESS_FAILED
    ||| s == STATUS_SOFT_DELETED
    ||| s == STATUS_INVALID_TARGET
}

/// The status codes a device may request through a report.
pub open spec fn reportable_status(s: i64) -> bool {
    ||| s == STATUS_PROCESSING
    ||| s == STATUS_FETCH_FAILED
    ||| s == STATUS_PROCESS_FAILED
}

/// The authoritative transition table for device reports: a device may move a
/// fetched command to processing or fetch-failed, and a processing command to
/// process-failed.  Every other report is rejected without a state change.
pub open spec fn report_allowed(current: i64, requested: i64) -> bool {
    ||| (current == STATUS_FETCHED && requested == STATUS_PROCESSING)
    ||| (current == STATUS_FETCHED && requested == STATUS_FETCH_FAILED)
    ||| (current == STATUS_PROCESSING && requested == STATUS_PROCESS_FAILED)
}

/// Runtime check mirroring `valid_status`.
pub fn is_valid_status(s: i64) -> (r: bool)
    ensures
        r == valid_status(s),
{
    s == STATUS_PENDING || s == STATUS_FETCHED || s == STATUS_PROCESSING || s == STATUS_COMPLETE
        || s == STATUS_FETCH_FAILED || s == STATUS_PROCESS_FAILED || s == STATUS_SOFT_DELETED
        || s == STATUS_INVALID_TARGET
}

/// Runtime check mirroring `reportable_status`.
pub fn is_reportable_status(s: i64) -> (r: bool)
    ensures
        r == reportable_status(s),
{
    s == STATUS_PROCESSING || s == STATUS_FETCH_FAILED || s == STATUS_PROCESS_FAILED
}

/// Runtime check mirroring `report_allowed`.
pub fn is_report_allowed(current: i64, requested: i64) -> (r: bool)
    ensures
        r == report_allowed(current, requested),
{
    (current == STATUS_FETCHED && (requested == STATUS_PROCESSING || requested
        == STATUS_FETCH_FAILED)) || (current == STATUS_PROCESSING && requested
        == STATUS_PROCESS_FAILED)
}

} // verus!
