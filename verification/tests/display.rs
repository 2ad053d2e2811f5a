use tunes::app::{App, DurationMsg};
use tunes::listing::DirItem;
use tunes::path::UnixPath;
use tunes::player::SinkReport;
use tunes::screen::{draw, RowStyle, Tone, HELP};
use tunes::time::TimeSpan;

fn path(s: &str) -> UnixPath {
    UnixPath::new(s.as_bytes().to_vec())
}

fn item(name: &str, is_dir: bool) -> DirItem {
    DirItem {
        file_name: name.as_bytes().to_vec(),
        path: path(&format!("/m/{}", name)),
        is_dir,
        created: None,
        modified: None,
    }
}

fn sample(has_audio: bool) -> App {
    App::new(
        path("/m"),
        has_audio,
        Ok(vec![item("d", true), item("a.mp3", false), item("b.mp3", false), item("c.mp3", false)]),
    )
    .0
}

fn sink(paused: bool, position: u64) -> Option<SinkReport> {
    Some(SinkReport { paused, empty: false, position: TimeSpan::new(position, 0) })
}

#[test]
fn rows_show_names_lengths_and_the_loaded_track() {
    let mut app = sample(true);
    app.drain_durations(&vec![
        DurationMsg { scan_gen: 1, path: path("/m/a.mp3"), duration: Some(TimeSpan::new(61, 0)) },
        DurationMsg { scan_gen: 1, path: path("/m/b.mp3"), duration: None },
    ]);
    app.opened(path("/m/a.mp3"), None, Ok(None));
    let s = draw(&app, sink(false, 0), 100);
    let cells: Vec<(&str, &str, &str, RowStyle)> = s
        .rows
        .iter()
        .map(|r| (r.name.as_str(), r.duration.as_str(), r.created.as_str(), r.style))
        .collect();
    assert_eq!(
        cells,
        vec![
            ("d/", "", "-", RowStyle::Directory),
            ("\u{25b6} a.mp3", "1:01", "-", RowStyle::Playing),
            ("b.mp3", "?", "-", RowStyle::Plain),
            ("c.mp3", "\u{2026}", "-", RowStyle::Plain),
        ]
    );
    assert_eq!(s.title, " /m ");
}

#[test]
fn loaded_track_is_shown_with_its_progress() {
    let mut app = sample(true);
    app.opened(path("/m/a.mp3"), Some(TimeSpan::new(120, 0)), Ok(None));
    let s = draw(&app, sink(false, 30), 100);
    assert_eq!(s.info.len(), 2);
    assert_eq!((s.info[0].text.as_str(), s.info[0].tone), (" \u{25b6} a.mp3", Tone::Bright));
    assert_eq!((s.info[1].text.as_str(), s.info[1].tone), ("   vol 100%", Tone::Dim));
    assert_eq!(s.gauge_label, "0:30 / 2:00");
    let p = s.progress.unwrap();
    assert_eq!((p.done.secs(), p.whole.secs()), (30, 120));
}

#[test]
fn progress_never_exceeds_the_track() {
    let mut app = sample(true);
    app.opened(path("/m/a.mp3"), Some(TimeSpan::new(10, 0)), Ok(None));
    let p = draw(&app, sink(false, 11), 100).progress.unwrap();
    assert_eq!((p.done.secs(), p.whole.secs()), (10, 10));
}

#[test]
fn track_of_unknown_length_shows_its_position_alone() {
    let mut app = sample(true);
    app.opened(path("/m/a.mp3"), None, Ok(None));
    let s = draw(&app, sink(true, 5), 90);
    assert_eq!(s.info[0].text, " \u{23f8} a.mp3");
    assert_eq!(s.info[1].text, "   vol  90%");
    assert_eq!(s.gauge_label, "0:05");
    assert!(s.progress.is_none());
    app.opened(path("/m/a.mp3"), Some(TimeSpan::new(0, 0)), Ok(None));
    let s = draw(&app, None, 5);
    assert_eq!(s.info[1].text, "   vol   5%");
    assert_eq!(s.gauge_label, "0:00");
    assert!(s.progress.is_none());
}

#[test]
fn idle_player_shows_the_status() {
    let mut app = sample(true);
    let s = draw(&app, None, 200);
    assert_eq!((s.info[0].text.as_str(), s.info[0].tone), (" nothing playing", Tone::Dim));
    assert_eq!(s.info[1].text, "   vol 200%");
    assert_eq!(s.gauge_label, "");
    assert_eq!((s.help.text.as_str(), s.help.tone), (HELP, Tone::Dim));
    app.sought(Err("x".to_string()));
    let s = draw(&app, None, 200);
    assert_eq!(s.info[0].text, " seek failed: x");
    assert_eq!(s.help.text, HELP);
}

#[test]
fn without_audio_there_is_no_volume() {
    let s = draw(&sample(false), None, 100);
    assert_eq!(s.info[1].text, "");
}

#[test]
fn trouble_takes_the_help_line_while_a_track_is_loaded() {
    let mut app = sample(true);
    app.opened(path("/m/a.mp3"), None, Ok(None));
    app.sought(Err("x".to_string()));
    let s = draw(&app, sink(false, 0), 100);
    assert_eq!((s.help.text.as_str(), s.help.tone), (" seek failed: x", Tone::Alarm));
}

#[test]
fn track_without_a_file_name_is_shown_nameless() {
    let mut app = sample(true);
    app.opened(path("/"), None, Ok(None));
    assert_eq!(draw(&app, None, 100).info[0].text, " \u{25b6} ");
}
