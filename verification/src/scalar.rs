//! Constant values in expressions.

use vstd::prelude::*;

verus! {

/// The resolution of a timestamp.
#[derive(Debug, Clone, Copy, PartialEq, Eq, Structural)]
pub enum TimeUnit {
    Second,
    Millisecond,
    Microsecond,
    Nanosecond,
}

impl TimeUnit {
    /// A number of units in nanoseconds.
    pub open spec fn nanoseconds(self, units: int) -> int {
        match self {
            TimeUnit::Second => units * 1_000_000_000,
            TimeUnit::Millisecond => units * 1_000_000,
            TimeUnit::Microsecond => units * 1_000,
            TimeUnit::Nanosecond => units,
        }
    }
}

/// A constant. A timestamp counts units since the epoch and may name a time zone; `None` in the
/// place of the value is SQL's NULL. Constants of other types are known by a handle alone.
#[derive(Debug, PartialEq, Eq)]
pub enum ScalarValue {
    TimestampSecond(Option<i64>, Option<String>),
    TimestampMillisecond(Option<i64>, Option<String>),
    TimestampMicrosecond(Option<i64>, Option<String>),
    TimestampNanosecond(Option<i64>, Option<String>),
    Utf8(Option<String>),
    Int64(Option<i64>),
    Other(u64),
}

/// What a constant stands for.
pub enum ScalarView {
    Timestamp(TimeUnit, Option<i64>, Option<Seq<char>>),
    Utf8(Option<Seq<char>>),
    Int64(Option<i64>),
    Other(u64),
}

/// What an optional text holds.
pub open spec fn text_view(text: Option<String>) -> Option<Seq<char>> {
    match text {
        Some(text) => Some(text@),
        None => None,
    }
}

/// Copy an optional text.
pub fn copy_text(text: &Option<String>) -> (copy: Option<String>)
    ensures
        copy == *text,
{
    match text {
        Some(text) => Some(text.clone()),
        None => None,
    }
}

impl View for ScalarValue {
    type V = ScalarView;

    open spec fn view(&self) -> ScalarView {
        match *self {
            ScalarValue::TimestampSecond(value, zone) => {
                ScalarView::Timestamp(TimeUnit::Second, value, text_view(zone))
            },
            ScalarValue::TimestampMillisecond(value, zone) => {
                ScalarView::Timestamp(TimeUnit::Millisecond, value, text_view(zone))
            },
            ScalarValue::TimestampMicrosecond(value, zone) => {
                ScalarView::Timestamp(TimeUnit::Microsecond, value, text_view(zone))
            },
            ScalarValue::TimestampNanosecond(value, zone) => {
                ScalarView::Timestamp(TimeUnit::Nanosecond, value, text_view(zone))
            },
            ScalarValue::Utf8(text) => ScalarView::Utf8(text_view(text)),
            ScalarValue::Int64(value) => ScalarView::Int64(value),
            ScalarValue::Other(handle) => ScalarView::Other(handle),
        }
    }
}

impl Clone for ScalarValue {
    fn clone(&self) -> (copy: Self)
        ensures
            copy == *self,
    {
        match self {
            ScalarValue::TimestampSecond(value, zone) => {
                ScalarValue::TimestampSecond(*value, copy_text(zone))
            },
            ScalarValue::TimestampMillisecond(value, zone) => {
                ScalarValue::TimestampMillisecond(*value, copy_text(zone))
            },
            ScalarValue::TimestampMicrosecond(value, zone) => {
                ScalarValue::TimestampMicrosecond(*value, copy_text(zone))
            },
            ScalarValue::TimestampNanosecond(value, zone) => {
                ScalarValue::TimestampNanosecond(*value, copy_text(zone))
            },
            ScalarValue::Utf8(text) => ScalarValue::Utf8(copy_text(text)),
            ScalarValue::Int64(value) => ScalarValue::Int64(*value),
            ScalarValue::Other(handle) => ScalarValue::Other(*handle),
        }
    }
}

/// A second has a thousand milliseconds, a million microseconds and a billion nanoseconds.
pub proof fn law_units_in_nanoseconds(units: int)
    ensures
        TimeUnit::Second.nanoseconds(units) == units * 1_000_000_000,
        TimeUnit::Millisecond.nanoseconds(units) == units * 1_000_000,
        TimeUnit::Microsecond.nanoseconds(units) == units * 1_000,
        TimeUnit::Nanosecond.nanoseconds(units) == units,
{
}

/// What a constant stands for keeps its unit, its value and its time zone, and a text as it is.
pub proof fn law_constants_keep_what_they_hold(
    value: Option<i64>,
    zone: Option<String>,
    handle: u64,
)
    ensures
        ({
            let named = match zone {
                Some(zone) => Some(zone@),
                None => None,
            };
            &&& ScalarValue::TimestampSecond(value, zone)@ == ScalarView::Timestamp(
                TimeUnit::Second,
                value,
                named,
            )
            &&& ScalarValue::TimestampMillisecond(value, zone)@ == ScalarView::Timestamp(
                TimeUnit::Millisecond,
                value,
                named,
            )
            &&& ScalarValue::TimestampMicrosecond(value, zone)@ == ScalarView::Timestamp(
                TimeUnit::Microsecond,
                value,
                named,
            )
            &&& ScalarValue::TimestampNanosecond(value, zone)@ == ScalarView::Timestamp(
                TimeUnit::Nanosecond,
                value,
                named,
            )
            &&& ScalarValue::Utf8(zone)@ == ScalarView::Utf8(named)
            &&& ScalarValue::Int64(value)@ == ScalarView::Int64(value)
            &&& ScalarValue::Other(handle)@ == ScalarView::Other(handle)
        }),
{
}

} // verus!
