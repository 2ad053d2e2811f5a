use tunes::path::UnixPath;
use tunes::player::{PauseOrder, Player, SinkReport};
use tunes::time::TimeSpan;

fn path(s: &str) -> UnixPath {
    UnixPath::new(s.as_bytes().to_vec())
}

fn sink(position: TimeSpan) -> Option<SinkReport> {
    Some(SinkReport { paused: false, empty: false, position })
}

fn parts(d: TimeSpan) -> (u64, u32) {
    (d.secs(), d.subsec_nanos())
}

fn seek(total: Option<TimeSpan>, position: u64, forward: bool, step: u64) -> (u64, u32) {
    let mut p = Player::new();
    p.play(path("/a.mp3"), total, None);
    parts(p.seek_by(sink(TimeSpan::new(position, 0)), forward, TimeSpan::new(step, 0)).unwrap())
}

#[test]
fn new_player_is_empty() {
    let p = Player::new();
    assert!(p.current.is_none() && p.total.is_none());
    assert!(!p.finished(None));
}

#[test]
fn known_length_goes_before_that_of_the_decoder() {
    let mut p = Player::new();
    p.play(path("/a.mp3"), Some(TimeSpan::new(10, 0)), Some(TimeSpan::new(11, 0)));
    assert_eq!(p.current.as_ref().unwrap().bytes().as_slice(), b"/a.mp3");
    assert_eq!(parts(p.total.unwrap()), (10, 0));
    p.play(path("/b.mp3"), None, Some(TimeSpan::new(11, 0)));
    assert_eq!(parts(p.total.unwrap()), (11, 0));
    p.play(path("/c.mp3"), None, None);
    assert!(p.total.is_none());
}

#[test]
fn stop_unloads() {
    let mut p = Player::new();
    p.play(path("/a.mp3"), Some(TimeSpan::new(10, 0)), None);
    p.stop();
    assert!(p.current.is_none() && p.total.is_none());
}

#[test]
fn pause_key_turns_the_state_over() {
    let p = Player::new();
    let playing = SinkReport { paused: false, empty: false, position: TimeSpan::new(0, 0) };
    let paused = SinkReport { paused: true, empty: false, position: TimeSpan::new(0, 0) };
    assert_eq!(p.toggle_pause(Some(playing)), Some(PauseOrder::Pause));
    assert_eq!(p.toggle_pause(Some(paused)), Some(PauseOrder::Resume));
    assert_eq!(p.toggle_pause(None), None);
    assert!(p.is_paused(Some(paused)) && !p.is_paused(Some(playing)) && !p.is_paused(None));
}

#[test]
fn track_is_finished_when_its_sink_is_empty() {
    let mut p = Player::new();
    let dry = SinkReport { paused: false, empty: true, position: TimeSpan::new(0, 0) };
    assert!(!p.finished(Some(dry)));
    p.play(path("/a.mp3"), None, None);
    assert!(p.finished(Some(dry)));
    assert!(p.finished(None));
    assert!(!p.finished(sink(TimeSpan::new(1, 0))));
}

#[test]
fn position_is_that_of_the_sink() {
    let p = Player::new();
    assert_eq!(parts(p.position(sink(TimeSpan::new(7, 8)))), (7, 8));
    assert_eq!(parts(p.position(None)), (0, 0));
}

#[test]
fn seek_moves_by_the_step() {
    assert_eq!(seek(None, 10, true, 5), (15, 0));
    assert_eq!(seek(None, 10, false, 5), (5, 0));
    assert_eq!(seek(None, 3, false, 5), (0, 0));
    assert_eq!(seek(Some(TimeSpan::new(100, 0)), 50, true, 30), (80, 0));
}

#[test]
fn seek_stays_out_of_the_last_half_second() {
    assert_eq!(seek(Some(TimeSpan::new(60, 0)), 58, true, 5), (59, 500_000_000));
    assert_eq!(seek(Some(TimeSpan::new(60, 0)), 100, false, 5), (59, 500_000_000));
    assert_eq!(seek(Some(TimeSpan::new(0, 400_000_000)), 0, true, 5), (0, 0));
}

#[test]
fn seek_saturates() {
    assert_eq!(seek(None, u64::MAX, true, 30), (u64::MAX, 999_999_999));
}

#[test]
fn seek_back_undoes_seek_forward() {
    let total = Some(TimeSpan::new(300, 0));
    let (s, n) = seek(total, 100, true, 30);
    assert_eq!((s, n), (130, 0));
    assert_eq!(seek(total, s, false, 30), (100, 0));
}

#[test]
fn seek_needs_a_sink() {
    let p = Player::new();
    assert!(p.seek_by(None, true, TimeSpan::new(5, 0)).is_none());
}
