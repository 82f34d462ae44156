//! Timed-text time expressions: frame counts, clock times and time units,
//! with the conversions the language bindings rely on.
use vstd::prelude::*;
use vstd::string::*;
use crate::text::str_eq;
use crate::ser::{dec_of, push_u64};

verus! {

/// A frame count of a clock time: whole frames or sub-frames.
#[derive(Clone, Copy, Debug, PartialEq, Eq, Structural)]
pub enum Frames {
    Frames { value: u16 },
    SubFrames { value: u16 },
}

/// The flat form of a frame count, as the bindings expose it: the value
/// and whether it counts sub-frames.
#[derive(Clone, Copy, Debug, PartialEq, Eq, Structural)]
pub struct PyTtmlFrames {
    pub value: u16,
    pub sub_frames: bool,
}

impl PyTtmlFrames {
    /// Flattens a frame count; inverse of `to_frames`.
    pub fn from_frames(frames: Frames) -> (r: PyTtmlFrames)
        ensures
            r == flat_of_frames(frames),
            frames_of_flat(r) == frames,
    {
        match frames {
            Frames::Frames { value } => PyTtmlFrames { value, sub_frames: false },
            Frames::SubFrames { value } => PyTtmlFrames { value, sub_frames: true },
        }
    }

    /// Rebuilds the frame count; inverse of `from_frames`.
    pub fn to_frames(self) -> (r: Frames)
        ensures
            r == frames_of_flat(self),
            flat_of_frames(r) == self,
    {
        if self.sub_frames {
            Frames::SubFrames { value: self.value }
        } else {
            Frames::Frames { value: self.value }
        }
    }
}

pub open spec fn flat_of_frames(f: Frames) -> PyTtmlFrames {
    match f {
        Frames::Frames { value } => PyTtmlFrames { value, sub_frames: false },
        Frames::SubFrames { value } => PyTtmlFrames { value, sub_frames: true },
    }
}

pub open spec fn frames_of_flat(p: PyTtmlFrames) -> Frames {
    if p.sub_frames {
        Frames::SubFrames { value: p.value }
    } else {
        Frames::Frames { value: p.value }
    }
}

/// The unit of an offset time expression.
#[derive(Clone, Copy, Debug, PartialEq, Eq, Structural)]
pub enum TimeUnit {
    Ticks,
    Frames,
    Milliseconds,
    Seconds,
    Minutes,
    Hours,
}

/// The wire tag of a unit: `t`, `f`, `ms`, `s`, `m`, `h`.
pub open spec fn unit_tag(u: TimeUnit) -> Seq<char> {
    match u {
        TimeUnit::Ticks => "t"@,
        TimeUnit::Frames => "f"@,
        TimeUnit::Milliseconds => "ms"@,
        TimeUnit::Seconds => "s"@,
        TimeUnit::Minutes => "m"@,
        TimeUnit::Hours => "h"@,
    }
}

impl TimeUnit {
    /// The unit named by a tag; `None` for an unknown tag.
    pub fn parse(tag: &str) -> (r: Option<TimeUnit>)
        ensures
            match r {
                Option::Some(u) => unit_tag(u) == tag@,
                Option::None => forall|u: TimeUnit| unit_tag(u) != tag@,
            },
    {
        let r = if str_eq(tag, "t") {
            Option::Some(TimeUnit::Ticks)
        } else if str_eq(tag, "f") {
            Option::Some(TimeUnit::Frames)
        } else if str_eq(tag, "ms") {
            Option::Some(TimeUnit::Milliseconds)
        } else if str_eq(tag, "s") {
            Option::Some(TimeUnit::Seconds)
        } else if str_eq(tag, "m") {
            Option::Some(TimeUnit::Minutes)
        } else if str_eq(tag, "h") {
            Option::Some(TimeUnit::Hours)
        } else {
            Option::None
        };
        proof {
            if r is None {
                assert forall|u: TimeUnit| unit_tag(u) != tag@ by {
                    match u {
                        TimeUnit::Ticks => assert(unit_tag(u) == "t"@),
                        TimeUnit::Frames => assert(unit_tag(u) == "f"@),
                        TimeUnit::Milliseconds => assert(unit_tag(u) == "ms"@),
                        TimeUnit::Seconds => assert(unit_tag(u) == "s"@),
                        TimeUnit::Minutes => assert(unit_tag(u) == "m"@),
                        TimeUnit::Hours => assert(unit_tag(u) == "h"@),
                    }
                }
            }
        }
        r
    }

    /// The tag of this unit; `TimeUnit::parse` inverts it.
    pub fn tag(self) -> (r: &'static str)
        ensures
            r@ == unit_tag(self),
    {
        match self {
            TimeUnit::Ticks => "t",
            TimeUnit::Frames => "f",
            TimeUnit::Milliseconds => "ms",
            TimeUnit::Seconds => "s",
            TimeUnit::Minutes => "m",
            TimeUnit::Hours => "h",
        }
    }
}

/// A clock time expression: hours, minutes, seconds and a frame count.
#[derive(Clone, Copy, Debug, PartialEq, Eq, Structural)]
pub struct ClockTime {
    pub hours: u16,
    pub minutes: u8,
    pub seconds: u8,
    pub frames: Frames,
}

/// The flat form of a clock time, as the bindings expose it.
#[derive(Clone, Copy, Debug, PartialEq, Eq, Structural)]
pub struct PyTtmlClockTime {
    pub hours: u16,
    pub minutes: u8,
    pub seconds: u8,
    pub frames: PyTtmlFrames,
}

impl PyTtmlClockTime {
    /// Flattens a clock time; inverse of `to_clock_time`.
    pub fn from_clock_time(c: ClockTime) -> (r: PyTtmlClockTime)
        ensures
            r == flat_of_clock(c),
            clock_of_flat(r) == c,
    {
        PyTtmlClockTime {
            hours: c.hours,
            minutes: c.minutes,
            seconds: c.seconds,
            frames: PyTtmlFrames::from_frames(c.frames),
        }
    }

    /// Rebuilds the clock time; inverse of `from_clock_time`.
    pub fn to_clock_time(self) -> (r: ClockTime)
        ensures
            r == clock_of_flat(self),
            flat_of_clock(r) == self,
    {
        ClockTime {
            hours: self.hours,
            minutes: self.minutes,
            seconds: self.seconds,
            frames: self.frames.to_frames(),
        }
    }
}

pub open spec fn flat_of_clock(c: ClockTime) -> PyTtmlClockTime {
    PyTtmlClockTime {
        hours: c.hours,
        minutes: c.minutes,
        seconds: c.seconds,
        frames: flat_of_frames(c.frames),
    }
}

pub open spec fn clock_of_flat(p: PyTtmlClockTime) -> ClockTime {
    ClockTime {
        hours: p.hours,
        minutes: p.minutes,
        seconds: p.seconds,
        frames: frames_of_flat(p.frames),
    }
}

/// A number padded to at least two digits.
pub open spec fn padded2(n: int) -> Seq<char> {
    if n < 10 {
        "0"@ + dec_of(n)
    } else {
        dec_of(n)
    }
}

fn push_padded2(out: &mut String, n: u64)
    ensures
        final(out)@ == old(out)@ + padded2(n as int),
{
    if n < 10 {
        out.append("0");
    }
    push_u64(out, n);
    proof {
        if n < 10 {
            assert(out@ =~= old(out)@ + padded2(n as int));
        }
    }
}

impl ClockTime {
    /// The `HH:MM:SS:FF` timecode of this clock time, each part padded to
    /// two digits.
    pub fn to_timecode(&self) -> (r: String)
        ensures
            r@ == padded2(self.hours as int) + ":"@ + padded2(self.minutes as int) + ":"@
                + padded2(self.seconds as int) + ":"@ + padded2(frame_value(self.frames) as int),
    {
        let fv: u16 = match self.frames {
            Frames::Frames { value } => value,
            Frames::SubFrames { value } => value,
        };
        let mut out = String::new();
        push_padded2(&mut out, self.hours as u64);
        out.append(":");
        push_padded2(&mut out, self.minutes as u64);
        out.append(":");
        push_padded2(&mut out, self.seconds as u64);
        out.append(":");
        push_padded2(&mut out, fv as u64);
        proof {
            assert(out@ =~= padded2(self.hours as int) + ":"@ + padded2(self.minutes as int)
                + ":"@ + padded2(self.seconds as int) + ":"@ + padded2(
                frame_value(self.frames) as int,
            ));
        }
        out
    }
}

/// The numeric value of a frame count.
pub open spec fn frame_value(f: Frames) -> u16 {
    match f {
        Frames::Frames { value } => value,
        Frames::SubFrames { value } => value,
    }
}

} // verus!
