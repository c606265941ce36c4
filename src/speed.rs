use vstd::prelude::*;

verus! {

/// The strongest strength an actuator can be driven at.
pub const MAX_SPEED: u16 = 100;

/// A strength in percent, 0 to 100.
#[derive(Clone, Copy, Debug, PartialEq, Eq, Structural)]
pub struct Speed {
    pub value: u16,
}

/// The value a requested percentage stands for once brought into 0..=100.
pub open spec fn clamped(percentage: int) -> int {
    if percentage < 0 {
        0
    } else if percentage > 100 {
        100
    } else {
        percentage
    }
}

impl Speed {
    pub open spec fn wf(self) -> bool {
        self.value <= MAX_SPEED
    }

    /// A strength from a percentage, clamped to 0..=100.
    pub fn new(percentage: i64) -> (r: Speed)
        ensures
            r.wf(),
            r.value == clamped(percentage as int),
    {
        if percentage < 0 {
            Speed { value: 0 }
        } else if percentage > 100 {
            Speed { value: MAX_SPEED }
        } else {
            Speed { value: percentage as u16 }
        }
    }

    /// The strongest strength.
    pub fn max() -> (r: Speed)
        ensures
            r.value == MAX_SPEED,
    {
        Speed { value: MAX_SPEED }
    }

    /// No movement.
    pub fn min() -> (r: Speed)
        ensures
            r.value == 0,
    {
        Speed { value: 0 }
    }

    pub fn as_percent(&self) -> (r: u16)
        ensures
            r == self.value,
    {
        self.value
    }
}

/// How long a command runs.
#[derive(Clone, Copy, Debug, PartialEq, Eq, Structural)]
pub enum TkDuration {
    /// Runs until it is stopped.
    Infinite,
    /// Runs for the given number of milliseconds.
    Timed(u64),
}

impl TkDuration {
    pub fn from_millis(ms: u64) -> (r: TkDuration)
        ensures
            r == TkDuration::Timed(ms),
    {
        TkDuration::Timed(ms)
    }

    /// A duration of whole seconds; one too long to count in milliseconds saturates.
    pub fn from_secs(secs: u64) -> (r: TkDuration)
        ensures
            secs * 1000 <= u64::MAX ==> r == TkDuration::Timed((secs * 1000) as u64),
            secs * 1000 > u64::MAX ==> r == TkDuration::Timed(u64::MAX),
    {
        if secs <= u64::MAX / 1000 {
            TkDuration::Timed(secs * 1000)
        } else {
            TkDuration::Timed(u64::MAX)
        }
    }

    pub fn is_infinite(&self) -> (r: bool)
        ensures
            r == (*self == TkDuration::Infinite),
    {
        match self {
            TkDuration::Infinite => true,
            TkDuration::Timed(_) => false,
        }
    }
}

/// What a control action plays.
#[derive(Clone, Debug)]
pub enum TkPattern {
    /// A constant strength held for the duration.
    Linear(TkDuration, Speed),
    /// The named pattern, looped or clipped to the duration.
    Funscript(TkDuration, String),
}

impl TkPattern {
    pub open spec fn spec_duration(&self) -> TkDuration {
        match self {
            TkPattern::Linear(d, _) => *d,
            TkPattern::Funscript(d, _) => *d,
        }
    }

    pub fn duration(&self) -> (r: TkDuration)
        ensures
            r == self.spec_duration(),
    {
        match self {
            TkPattern::Linear(d, _) => *d,
            TkPattern::Funscript(d, _) => *d,
        }
    }
}

} // verus!
