//! Observations of a market: ticks and bars, their event times, and saturating time arithmetic.
//!
//! A moment is a count of microseconds since the Unix epoch.

use vstd::prelude::*;
use vstd::std_specs::cmp::PartialEqSpec;

verus! {

/// The nearest moment that a 64-bit count can hold.
pub open spec fn clamped(value: int) -> int {
    if value > i64::MAX {
        i64::MAX as int
    } else if value < i64::MIN {
        i64::MIN as int
    } else {
        value
    }
}

/// The later of two moments.
pub open spec fn later_of(left: int, right: int) -> int {
    if left >= right {
        left
    } else {
        right
    }
}

/// The earlier of two moments.
pub open spec fn earlier_of(left: int, right: int) -> int {
    if left <= right {
        left
    } else {
        right
    }
}

/// A sum that stops at the ends of the 64-bit range.
pub fn saturating_sum(left: i64, right: i64) -> (sum: i64)
    ensures
        sum == clamped(left + right),
{
    let sum: i128 = left as i128 + right as i128;
    if sum > i64::MAX as i128 {
        i64::MAX
    } else if sum < i64::MIN as i128 {
        i64::MIN
    } else {
        sum as i64
    }
}

/// A difference that stops at the ends of the 64-bit range.
pub fn saturating_difference(left: i64, right: i64) -> (difference: i64)
    ensures
        difference == clamped(left - right),
{
    let difference: i128 = left as i128 - right as i128;
    if difference > i64::MAX as i128 {
        i64::MAX
    } else if difference < i64::MIN as i128 {
        i64::MIN
    } else {
        difference as i64
    }
}

/// The later of two moments.
pub fn later(left: i64, right: i64) -> (moment: i64)
    ensures
        moment == later_of(left as int, right as int),
{
    if left >= right {
        left
    } else {
        right
    }
}

/// The earlier of two moments.
pub fn earlier(left: i64, right: i64) -> (moment: i64)
    ensures
        moment == earlier_of(left as int, right as int),
{
    if left <= right {
        left
    } else {
        right
    }
}

/// The native observation an instrument is collected at.
#[derive(Debug, Clone, Copy, PartialEq, Eq, Structural)]
pub enum NativeGranularity {
    Tick,
    Bar { period_seconds: u16 },
}

/// The part of a study a dataset belongs to.
#[derive(Debug, Clone, Copy, PartialEq, Eq, Structural)]
pub enum DatasetRole {
    Development,
    Evaluation,
    Holdout,
}

/// The row type one acquisition handles; ticks and bars share every paging, overlap, and
/// coverage rule through this boundary.
pub trait Row: Copy + PartialEq {
    /// The provider event time: the tick time or the bar start.
    spec fn moment(&self) -> int;

    /// The first instant after the row is complete.
    spec fn completion(&self) -> int;

    /// Whether both times of the row fit the 64-bit microsecond range.
    spec fn representable(&self) -> bool;

    /// Two rows at one event time that disagree.
    spec fn contradicts(&self, other: &Self) -> bool;

    /// Rows compare equal exactly when they are the same observation.
    proof fn equality_is_identity()
        ensures
            Self::obeys_eq_spec(),
            forall|a: Self, b: Self| #[trigger] a.eq_spec(&b) == (a == b),
    ;

    fn time(&self) -> (time: i64)
        requires
            self.representable(),
        ensures
            time == self.moment(),
    ;

    fn end(&self) -> (end: i64)
        requires
            self.representable(),
        ensures
            end == self.completion(),
    ;

    fn conflicts(&self, other: &Self) -> (conflict: bool)
        ensures
            conflict == self.contradicts(other),
    ;
}

/// One price observation in integer price units.
#[derive(Debug, Clone, Copy)]
pub struct Tick {
    pub event_time_micros: i64,
    pub price_units: i64,
}

/// One fixed-period bar. Its prices and volume are carried as integers, one for each distinct
/// provider value, so that equal provider values are equal integers.
#[derive(Debug, Clone, Copy)]
pub struct Bar {
    pub start_unix_s: i64,
    pub open: u64,
    pub high: u64,
    pub low: u64,
    pub close: u64,
    pub volume: u64,
    pub period_s: u16,
}

impl PartialEq for Tick {
    fn eq(&self, other: &Self) -> (same: bool) {
        self.event_time_micros == other.event_time_micros && self.price_units == other.price_units
    }
}

impl vstd::std_specs::cmp::PartialEqSpecImpl for Tick {
    open spec fn obeys_eq_spec() -> bool {
        true
    }

    open spec fn eq_spec(&self, other: &Self) -> bool {
        self.event_time_micros == other.event_time_micros && self.price_units == other.price_units
    }
}

impl PartialEq for Bar {
    fn eq(&self, other: &Self) -> (same: bool) {
        self.start_unix_s == other.start_unix_s && self.open == other.open && self.high
            == other.high && self.low == other.low && self.close == other.close && self.volume
            == other.volume && self.period_s == other.period_s
    }
}

impl vstd::std_specs::cmp::PartialEqSpecImpl for Bar {
    open spec fn obeys_eq_spec() -> bool {
        true
    }

    open spec fn eq_spec(&self, other: &Self) -> bool {
        self.start_unix_s == other.start_unix_s && self.open == other.open && self.high
            == other.high && self.low == other.low && self.close == other.close && self.volume
            == other.volume && self.period_s == other.period_s
    }
}

impl Row for Tick {
    open spec fn moment(&self) -> int {
        self.event_time_micros as int
    }

    open spec fn completion(&self) -> int {
        clamped(self.event_time_micros + 1)
    }

    open spec fn representable(&self) -> bool {
        true
    }

    open spec fn contradicts(&self, other: &Self) -> bool {
        self.event_time_micros == other.event_time_micros && self.price_units != other.price_units
    }

    proof fn equality_is_identity() {
    }

    fn time(&self) -> (time: i64) {
        self.event_time_micros
    }

    fn end(&self) -> (end: i64) {
        saturating_sum(self.event_time_micros, 1)
    }

    fn conflicts(&self, other: &Self) -> (conflict: bool) {
        self.event_time_micros == other.event_time_micros && self.price_units != other.price_units
    }
}

impl Row for Bar {
    open spec fn moment(&self) -> int {
        self.start_unix_s * 1_000_000
    }

    open spec fn completion(&self) -> int {
        (self.start_unix_s + self.period_s) * 1_000_000
    }

    open spec fn representable(&self) -> bool {
        &&& i64::MIN <= self.start_unix_s * 1_000_000
        &&& (self.start_unix_s + self.period_s) * 1_000_000 <= i64::MAX
    }

    open spec fn contradicts(&self, other: &Self) -> bool {
        self.start_unix_s == other.start_unix_s && *self != *other
    }

    proof fn equality_is_identity() {
    }

    fn time(&self) -> (time: i64) {
        self.start_unix_s * 1_000_000
    }

    fn end(&self) -> (end: i64) {
        (self.start_unix_s + self.period_s as i64) * 1_000_000
    }

    fn conflicts(&self, other: &Self) -> (conflict: bool) {
        self.start_unix_s == other.start_unix_s && !(*self == *other)
    }
}

/// The acquisition frontier a retained last row establishes: the row's time for ticks, the
/// bar's end for bars.
pub open spec fn frontier_of(granularity: NativeGranularity, last_time: int) -> int {
    match granularity {
        NativeGranularity::Tick => last_time,
        NativeGranularity::Bar { period_seconds } => clamped(last_time + period_seconds * 1_000_000),
    }
}

/// The acquisition frontier a retained last row establishes.
pub fn frontier(granularity: NativeGranularity, last_time: i64) -> (moment: i64)
    ensures
        moment == frontier_of(granularity, last_time as int),
{
    match granularity {
        NativeGranularity::Tick => last_time,
        NativeGranularity::Bar { period_seconds } => saturating_sum(
            last_time,
            period_seconds as i64 * 1_000_000,
        ),
    }
}

/// Whether rows come in event order, repeated times allowed.
pub open spec fn in_event_order<R: Row>(rows: Seq<R>) -> bool {
    forall|i: int, j: int| 0 <= i <= j < rows.len() ==> rows[i].moment() <= rows[j].moment()
}

/// Whether every row's times fit the 64-bit microsecond range.
pub open spec fn all_representable<R: Row>(rows: Seq<R>) -> bool {
    forall|i: int| 0 <= i < rows.len() ==> (#[trigger] rows[i]).representable()
}

} // verus!
