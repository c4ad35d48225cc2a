//! Reading durations from serialized integers.
use vstd::prelude::*;

verus! {

/// Reads a duration written as a count of milliseconds.
pub struct MillisecondsTimestampVisitor;

/// Reads a duration written as a count of seconds.
pub struct SecondsTimestampVisitor;

/// An unsigned count, where it fits an `i64`; the count itself otherwise.
pub open spec fn signed_count(value: u64) -> Result<i64, u64> {
    if value <= i64::MAX as u64 {
        Ok(value as i64)
    } else {
        Err(value)
    }
}

impl MillisecondsTimestampVisitor {
    /// The duration, in milliseconds, of a signed count.
    pub fn visit_i64(&self, value: i64) -> (r: i64)
        ensures
            r == value,
    {
        value
    }

    /// The duration, in milliseconds, of an unsigned count; a count beyond
    /// `i64` is refused and returned.
    pub fn visit_u64(&self, value: u64) -> (r: Result<i64, u64>)
        ensures
            r == signed_count(value),
    {
        if value <= i64::MAX as u64 {
            Ok(value as i64)
        } else {
            Err(value)
        }
    }
}

impl SecondsTimestampVisitor {
    /// The duration, in seconds, of a signed count.
    pub fn visit_i64(&self, value: i64) -> (r: i64)
        ensures
            r == value,
    {
        value
    }

    /// The duration, in seconds, of an unsigned count; a count beyond `i64`
    /// is refused and returned.
    pub fn visit_u64(&self, value: u64) -> (r: Result<i64, u64>)
        ensures
            r == signed_count(value),
    {
        if value <= i64::MAX as u64 {
            Ok(value as i64)
        } else {
            Err(value)
        }
    }
}

} // verus!
