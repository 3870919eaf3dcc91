use vstd::prelude::*;

verus! {

/// Milliseconds in one second.
pub const SEC_IN_MILLISEC: u128 = 1000;

/// Milliseconds in one minute.
pub const MINUTE_IN_MILLISEC: u128 = 60000;

/// Milliseconds in one hour.
pub const HOUR_IN_MILLISEC: u128 = 3600000;

/// Milliseconds in one day.
pub const DAY_IN_MILLISEC: u128 = 86400000;

/// A count of milliseconds: an instant since the Unix epoch
/// (1970-01-01T00:00:00.000Z) or a span of time.
#[derive(Debug, Clone, Copy, PartialEq, Eq, Structural, PartialOrd, Ord, Hash)]
pub struct Time(pub u128);

#[verifier::external_type_specification]
#[verifier::external_body]
pub struct ExSystemTime(std::time::SystemTime);

#[verifier::external_type_specification]
#[verifier::external_body]
pub struct ExSystemTimeError(std::time::SystemTimeError);

/// Relies on `SystemTime::now`: the current reading of the system clock.
/// Nothing is promised of it.
#[verifier::external_body]
fn clock_now() -> (r: std::time::SystemTime) {
    std::time::SystemTime::now()
}

/// Relies on `SystemTime::duration_since(UNIX_EPOCH)`: the span from the Unix
/// epoch to `t`, or an error where `t` lies before the epoch.
#[verifier::external_body]
fn since_unix_epoch(t: &std::time::SystemTime) -> (r: Result<
    std::time::Duration,
    std::time::SystemTimeError,
>) {
    t.duration_since(std::time::UNIX_EPOCH)
}

/// Relies on `Duration::as_millis`: the whole milliseconds of a span.
#[verifier::external_body]
fn whole_millis(d: &std::time::Duration) -> (r: u128) {
    d.as_millis()
}

impl Time {
    /// The milliseconds elapsed since the Unix epoch, read from the system clock.
    pub fn now() -> (r: Result<Time, std::time::SystemTimeError>) {
        let now = clock_now();
        match since_unix_epoch(&now) {
            Ok(d) => Ok(Time(whole_millis(&d))),
            Err(e) => Err(e),
        }
    }

    /// A span of `days` days.
    pub fn from_days(days: usize) -> (r: Time)
        ensures
            r.0 == days as int * DAY_IN_MILLISEC as int,
    {
        assert(days as int * 86400000 <= u128::MAX) by (nonlinear_arith)
            requires days <= usize::MAX, usize::MAX <= u64::MAX;
        Time(days as u128 * DAY_IN_MILLISEC)
    }

    /// A span of `hours` hours.
    pub fn from_hours(hours: usize) -> (r: Time)
        ensures
            r.0 == hours as int * HOUR_IN_MILLISEC as int,
    {
        assert(hours as int * 3600000 <= u128::MAX) by (nonlinear_arith)
            requires hours <= usize::MAX, usize::MAX <= u64::MAX;
        Time(hours as u128 * HOUR_IN_MILLISEC)
    }

    /// A span of `minutes` minutes.
    pub fn from_minutes(minutes: usize) -> (r: Time)
        ensures
            r.0 == minutes as int * MINUTE_IN_MILLISEC as int,
    {
        assert(minutes as int * 60000 <= u128::MAX) by (nonlinear_arith)
            requires minutes <= usize::MAX, usize::MAX <= u64::MAX;
        Time(minutes as u128 * MINUTE_IN_MILLISEC)
    }

    /// A span of `seconds` seconds.
    pub fn from_seconds(seconds: usize) -> (r: Time)
        ensures
            r.0 == seconds as int * SEC_IN_MILLISEC as int,
    {
        assert(seconds as int * 1000 <= u128::MAX) by (nonlinear_arith)
            requires seconds <= usize::MAX, usize::MAX <= u64::MAX;
        Time(seconds as u128 * SEC_IN_MILLISEC)
    }

    /// The count of milliseconds.
    pub fn inner(&self) -> (r: u128)
        ensures
            r == self.0,
    {
        self.0
    }

    /// Moves this value later by `rhs`.
    pub fn add_assign(&mut self, rhs: Time)
        requires
            old(self).0 + rhs.0 <= u128::MAX,
        ensures
            final(self).0 == old(self).0 + rhs.0,
    {
        self.0 = self.0 + rhs.0;
    }

    /// Moves this value earlier by `rhs`.
    pub fn sub_assign(&mut self, rhs: Time)
        requires
            rhs.0 <= old(self).0,
        ensures
            final(self).0 == old(self).0 - rhs.0,
    {
        self.0 = self.0 - rhs.0;
    }
}

impl From<u128> for Time {
    fn from(epoch: u128) -> (r: Time) {
        Time(epoch)
    }
}

impl vstd::std_specs::convert::FromSpecImpl<u128> for Time {
    open spec fn obeys_from_spec() -> bool {
        true
    }

    open spec fn from_spec(epoch: u128) -> Time {
        Time(epoch)
    }
}

impl std::ops::Add for Time {
    type Output = Time;

    fn add(self, rhs: Time) -> (r: Time) {
        Time(self.0 + rhs.0)
    }
}

impl vstd::std_specs::ops::AddSpecImpl for Time {
    open spec fn obeys_add_spec() -> bool {
        true
    }

    open spec fn add_req(self, rhs: Time) -> bool {
        self.0 + rhs.0 <= u128::MAX
    }

    open spec fn add_spec(self, rhs: Time) -> Time {
        Time((self.0 + rhs.0) as u128)
    }
}

impl std::ops::Sub for Time {
    type Output = Time;

    fn sub(self, rhs: Time) -> (r: Time) {
        Time(self.0 - rhs.0)
    }
}

impl vstd::std_specs::ops::SubSpecImpl for Time {
    open spec fn obeys_sub_spec() -> bool {
        true
    }

    open spec fn sub_req(self, rhs: Time) -> bool {
        rhs.0 <= self.0
    }

    open spec fn sub_spec(self, rhs: Time) -> Time {
        Time((self.0 - rhs.0) as u128)
    }
}

} // verus!
