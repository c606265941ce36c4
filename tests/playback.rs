use telekinesis::pattern::parse_steps;
use telekinesis::player::{cursor_for, expired, PatternCursor};
use telekinesis::scheduler::PatternSample;
use telekinesis::speed::{Speed, TkDuration};

fn step(offset_ms: u64, percent: u16) -> PatternSample {
    PatternSample { offset_ms, strength: Speed { value: percent } }
}

#[test]
fn step_list_is_read() {
    assert_eq!(parse_steps(b"0,20\n100,40\n250,0\n"), Some(vec![step(0, 20), step(100, 40), step(250, 0)]));
    assert_eq!(parse_steps(b"5,100"), Some(vec![step(5, 100)]));
    assert_eq!(parse_steps(b"7,1\n7,2"), Some(vec![step(7, 1), step(7, 2)]));
    assert_eq!(parse_steps(b""), Some(vec![]));
    assert_eq!(parse_steps(b"18446744073709551615,3"), Some(vec![step(u64::MAX, 3)]));
}

#[test]
fn malformed_step_lists_are_refused() {
    assert_eq!(parse_steps(b"100,20\n50,40\n"), None);
    assert_eq!(parse_steps(b"0,101\n"), None);
    assert_eq!(parse_steps(b"0 20\n"), None);
    assert_eq!(parse_steps(b",20\n"), None);
    assert_eq!(parse_steps(b"0,\n"), None);
    assert_eq!(parse_steps(b"0,20\n\n"), None);
    assert_eq!(parse_steps(b"0,20,30\n"), None);
    assert_eq!(parse_steps(b"18446744073709551616,3"), None);
}

#[test]
fn cursor_loops_over_the_pattern() {
    let samples = vec![step(0, 10), step(100, 50), step(300, 90)];
    let mut c = cursor_for(&samples);
    assert_eq!(c.next(&samples), Some((0, Speed { value: 10 })));
    assert_eq!(c.next(&samples), Some((100, Speed { value: 50 })));
    assert_eq!(c.next(&samples), Some((300, Speed { value: 90 })));
    assert_eq!(c.next(&samples), Some((300, Speed { value: 10 })));
    assert_eq!(c.next(&samples), Some((400, Speed { value: 50 })));
    assert_eq!(c.cycle_start, 300);
}

#[test]
fn cursor_plays_patterns_without_length_once() {
    let samples = vec![step(0, 10), step(0, 20)];
    let mut c = cursor_for(&samples);
    assert_eq!(c.next(&samples), Some((0, Speed { value: 10 })));
    assert_eq!(c.next(&samples), Some((0, Speed { value: 20 })));
    assert_eq!(c.next(&samples), None);
    let empty: Vec<PatternSample> = vec![];
    let mut e = cursor_for(&empty);
    assert_eq!(e.next(&empty), None);
    assert_eq!(PatternCursor::new().index, 0);
}

#[test]
fn durations_expire() {
    assert!(!expired(TkDuration::Infinite, u64::MAX));
    assert!(!expired(TkDuration::Timed(1000), 999));
    assert!(expired(TkDuration::Timed(1000), 1000));
}
