use mcai_worker_sdk::ttml::{ClockTime, Frames, PyTtmlClockTime, PyTtmlFrames, TimeUnit};

#[test]
fn test_py_ttml_frames() {
    let py_ttml_frames = PyTtmlFrames {
        value: 123,
        sub_frames: false,
    };

    let frames: Frames = py_ttml_frames.to_frames();
    let ttml_frames = PyTtmlFrames::from_frames(frames);

    assert_eq!(py_ttml_frames, ttml_frames);

    let py_ttml_frames = PyTtmlFrames {
        value: 123,
        sub_frames: true,
    };

    let frames: Frames = py_ttml_frames.to_frames();
    let ttml_frames = PyTtmlFrames::from_frames(frames);

    assert_eq!(py_ttml_frames, ttml_frames);
}

#[test]
fn test_py_ttml_clock_time_round_trip() {
    let py_ttml_frames = PyTtmlFrames {
        value: 123,
        sub_frames: false,
    };

    let ttml_clock_time = PyTtmlClockTime {
        hours: 1,
        minutes: 2,
        seconds: 3,
        frames: py_ttml_frames,
    };

    let clock_time: ClockTime = ttml_clock_time.to_clock_time();
    let back = PyTtmlClockTime::from_clock_time(clock_time);

    assert_eq!(ttml_clock_time, back);
}

#[test]
fn test_to_time_code() {
    let clock_time = ClockTime {
        hours: 1,
        minutes: 2,
        seconds: 3,
        frames: Frames::Frames { value: 12 },
    };
    assert_eq!(clock_time.to_timecode(), "01:02:03:12");

    let long = ClockTime {
        hours: 10,
        minutes: 20,
        seconds: 30,
        frames: Frames::SubFrames { value: 123 },
    };
    assert_eq!(long.to_timecode(), "10:20:30:123");
}

#[test]
fn test_time_unit_tags_round_trip() {
    let units = [
        TimeUnit::Ticks,
        TimeUnit::Frames,
        TimeUnit::Milliseconds,
        TimeUnit::Seconds,
        TimeUnit::Minutes,
        TimeUnit::Hours,
    ];
    for unit in units {
        assert_eq!(TimeUnit::parse(unit.tag()), Some(unit));
    }
    assert_eq!(TimeUnit::parse("x"), None);
    assert_eq!(TimeUnit::parse("s"), Some(TimeUnit::Seconds));
    assert_eq!(TimeUnit::parse("ms"), Some(TimeUnit::Milliseconds));
}
