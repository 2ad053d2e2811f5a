use tunes::app::{command_of, complaint, Action, App, Command, DurationMsg, Key, KeyInput};
use tunes::listing::DirItem;
use tunes::path::UnixPath;
use tunes::player::SinkReport;
use tunes::time::TimeSpan;

fn path(s: &str) -> UnixPath {
    UnixPath::new(s.as_bytes().to_vec())
}

fn items(dir: &str, names: &[(&str, bool)]) -> Vec<DirItem> {
    names
        .iter()
        .map(|(name, is_dir)| DirItem {
            file_name: name.as_bytes().to_vec(),
            path: path(&format!("{}/{}", dir, name)),
            is_dir: *is_dir,
            created: None,
            modified: None,
        })
        .collect()
}

const MUSIC: [(&str, bool); 5] =
    [("one.mp3", false), ("Albums", true), ("two.mp3", false), (".hid.mp3", false), ("x.txt", false)];

fn music_app(has_audio: bool) -> App {
    App::new(path("/music"), has_audio, Ok(items("/music", &MUSIC))).0
}

fn sink(empty: bool, position: u64) -> Option<SinkReport> {
    Some(SinkReport { paused: false, empty, position: TimeSpan::new(position, 0) })
}

fn press(code: Key) -> KeyInput {
    KeyInput { press: true, code, shift: false, control: false }
}

fn text(p: &UnixPath) -> String {
    String::from_utf8(p.bytes().clone()).unwrap()
}

fn names(app: &App) -> Vec<String> {
    app.entries.iter().map(|e| e.name.clone()).collect()
}

fn load(app: &mut App, p: &str) {
    app.opened(path(p), None, Ok(None));
}

#[test]
fn start_reads_the_directory() {
    let (app, probes) = App::new(path("/music"), true, Ok(items("/music", &MUSIC)));
    assert_eq!(names(&app), vec!["Albums", "one.mp3", "two.mp3"]);
    assert_eq!(app.table.selected, Some(0));
    assert_eq!(app.scan_gen, 1);
    assert!(!app.show_hidden && !app.quit && app.status.is_none() && app.player.is_some());
    let probed: Vec<String> = probes.iter().map(text).collect();
    assert_eq!(probed, vec!["/music/one.mp3", "/music/two.mp3"]);
}

#[test]
fn start_without_audio_has_no_player() {
    assert!(music_app(false).player.is_none());
}

#[test]
fn unreadable_directory_is_reported() {
    let mut app = music_app(true);
    app.table.select(Some(2));
    let probes = app.rescan(Err("denied".to_string()), Some(path("/music/one.mp3")));
    assert!(probes.is_empty() && app.entries.is_empty());
    assert_eq!(app.status.as_deref(), Some("cannot read /music: denied"));
    assert_eq!(app.scan_gen, 2);
    assert_eq!(app.table.selected, Some(2));
    assert!(app.selected_entry().is_none());
}

#[test]
fn empty_directory_has_no_selection() {
    let mut app = music_app(true);
    app.table.offset = 7;
    app.rescan(Ok(Vec::new()), None);
    assert_eq!(app.table.selected, None);
    assert_eq!(app.table.offset, 0);
    app.move_selection(1);
    assert_eq!(app.table.selected, None);
    assert!(matches!(app.on_key(press(Key::End), None), Action::Nothing));
    assert_eq!(app.table.selected, None);
}

#[test]
fn scan_keeps_the_path_that_was_selected() {
    let mut app = music_app(true);
    app.rescan(Ok(items("/music", &MUSIC)), Some(path("/music//two.mp3")));
    assert_eq!(app.table.selected, Some(2));
    app.rescan(Ok(items("/music", &MUSIC)), Some(path("/music/gone.mp3")));
    assert_eq!(app.table.selected, Some(0));
}

#[test]
fn scans_of_the_same_items_show_the_same_rows() {
    let mut app = music_app(true);
    let first = names(&app);
    app.rescan(Ok(items("/music", &MUSIC)), None);
    assert_eq!(names(&app), first);
}

#[test]
fn durations_are_taken_in() {
    let mut app = music_app(true);
    app.drain_durations(&vec![
        DurationMsg { scan_gen: 1, path: path("/music/two.mp3"), duration: Some(TimeSpan::new(9, 0)) },
        DurationMsg { scan_gen: 1, path: path("/music/one.mp3"), duration: None },
        DurationMsg { scan_gen: 1, path: path("/music/gone.mp3"), duration: None },
    ]);
    assert!(app.entries[1].duration.is_none() && !app.entries[1].duration_pending);
    assert_eq!(app.entries[2].duration.unwrap().secs(), 9);
    assert!(!app.entries[2].duration_pending);
}

#[test]
fn late_durations_are_ignored() {
    let mut app = music_app(true);
    app.rescan(Ok(items("/music", &MUSIC)), None);
    app.drain_durations(&vec![DurationMsg {
        scan_gen: 1,
        path: path("/music/one.mp3"),
        duration: Some(TimeSpan::new(9, 0)),
    }]);
    assert!(app.entries[1].duration.is_none() && app.entries[1].duration_pending);
}

#[test]
fn selection_moves_within_the_listing() {
    let mut app = music_app(true);
    app.move_selection(1);
    assert_eq!(app.table.selected, Some(1));
    app.move_selection(15);
    assert_eq!(app.table.selected, Some(2));
    app.move_selection(-1);
    assert_eq!(app.table.selected, Some(1));
    app.move_selection(-15);
    assert_eq!(app.table.selected, Some(0));
    app.move_selection(isize::MAX);
    assert_eq!(app.table.selected, Some(2));
    app.move_selection(isize::MIN);
    assert_eq!(app.table.selected, Some(0));
    app.table.select(None);
    app.move_selection(1);
    assert_eq!(app.table.selected, Some(1));
}

#[test]
fn moves_add_up_and_undo() {
    let mut app = music_app(true);
    app.move_selection(1);
    app.move_selection(1);
    assert_eq!(app.table.selected, Some(2));
    app.move_selection(-2);
    assert_eq!(app.table.selected, Some(0));
}

#[test]
fn keys_have_their_commands() {
    let pairs = [
        (Key::Esc, Command::Quit),
        (Key::Char('q'), Command::Quit),
        (Key::Char('c'), Command::Ignore),
        (Key::Down, Command::Move { rows: 1 }),
        (Key::Char('j'), Command::Move { rows: 1 }),
        (Key::Up, Command::Move { rows: -1 }),
        (Key::Char('k'), Command::Move { rows: -1 }),
        (Key::PageDown, Command::Move { rows: 15 }),
        (Key::PageUp, Command::Move { rows: -15 }),
        (Key::Home, Command::First),
        (Key::Char('g'), Command::First),
        (Key::End, Command::Last),
        (Key::Char('G'), Command::Last),
        (Key::Enter, Command::Open),
        (Key::Char('l'), Command::Open),
        (Key::Backspace, Command::GoUp),
        (Key::Char('h'), Command::GoUp),
        (Key::Char(' '), Command::TogglePause),
        (Key::Char('s'), Command::Stop),
        (Key::Right, Command::Seek { forward: true, big: false }),
        (Key::Left, Command::Seek { forward: false, big: false }),
        (Key::Char(']'), Command::Seek { forward: true, big: true }),
        (Key::Char('['), Command::Seek { forward: false, big: true }),
        (Key::Char('+'), Command::Volume { up: true }),
        (Key::Char('='), Command::Volume { up: true }),
        (Key::Char('-'), Command::Volume { up: false }),
        (Key::Char('.'), Command::ToggleHidden),
        (Key::Char('r'), Command::Refresh),
        (Key::Char('x'), Command::Ignore),
        (Key::Other, Command::Ignore),
    ];
    for (code, command) in pairs {
        assert_eq!(command_of(press(code)), command, "{:?}", code);
        let up = KeyInput { press: false, code, shift: false, control: false };
        assert_eq!(command_of(up), Command::Ignore);
    }
}

#[test]
fn modifiers_change_commands() {
    let ctrl_c = KeyInput { press: true, code: Key::Char('c'), shift: false, control: true };
    assert_eq!(command_of(ctrl_c), Command::Quit);
    let far = KeyInput { press: true, code: Key::Right, shift: true, control: false };
    assert_eq!(command_of(far), Command::Seek { forward: true, big: true });
    let back = KeyInput { press: true, code: Key::Left, shift: true, control: false };
    assert_eq!(command_of(back), Command::Seek { forward: false, big: true });
}

#[test]
fn released_keys_do_nothing() {
    let mut app = music_app(true);
    let up = KeyInput { press: false, code: Key::Char('q'), shift: false, control: false };
    assert!(matches!(app.on_key(up, None), Action::Nothing));
    assert!(!app.quit);
}

#[test]
fn quit_keys_quit() {
    for key in [
        press(Key::Esc),
        press(Key::Char('q')),
        KeyInput { press: true, code: Key::Char('c'), shift: false, control: true },
    ] {
        let mut app = music_app(true);
        assert!(matches!(app.on_key(key, None), Action::Nothing));
        assert!(app.quit);
    }
}

#[test]
fn home_and_end_select_the_ends() {
    let mut app = music_app(true);
    app.on_key(press(Key::End), None);
    assert_eq!(app.table.selected, Some(2));
    app.on_key(press(Key::Home), None);
    assert_eq!(app.table.selected, Some(0));
}

#[test]
fn opening_a_directory_enters_it() {
    let mut app = music_app(true);
    let action = app.on_key(press(Key::Enter), None);
    assert!(matches!(action, Action::Rescan { select: None }));
    assert_eq!(text(&app.cwd), "/music/Albums");
}

#[test]
fn going_up_returns_to_where_one_was() {
    let mut app = music_app(true);
    app.on_key(press(Key::Enter), None);
    match app.on_key(press(Key::Backspace), None) {
        Action::Rescan { select: Some(from) } => {
            assert_eq!(text(&from), "/music/Albums");
            assert_eq!(text(&app.cwd), "/music");
            app.rescan(Ok(items("/music", &MUSIC)), Some(from));
        }
        _ => panic!("no scan"),
    }
    assert_eq!(app.selected_entry().unwrap().name, "Albums");
}

#[test]
fn opening_an_item_and_going_up_leads_back() {
    for dir in ["", ".", "/", "/music", "/music/", "a//b", "./a/."] {
        let mut list = items(dir, &[("Albums", true)]);
        let joined = std::path::Path::new(dir).join("Albums");
        list[0].path = path(joined.to_str().unwrap());
        let mut app = App::new(path(dir), true, Ok(list)).0;
        app.on_key(press(Key::Enter), None);
        assert_eq!(text(&app.cwd), joined.to_str().unwrap());
        app.on_key(press(Key::Backspace), None);
        assert!(app.cwd.same_as(&path(dir)), "from {:?}", dir);
    }
}

#[test]
fn different_items_have_different_rows() {
    let app = music_app(true);
    for i in 0..app.entries.len() {
        for j in 0..app.entries.len() {
            assert_eq!(app.entries[i].path.same_as(&app.entries[j].path), i == j);
        }
    }
}

#[test]
fn keys_keep_a_selection() {
    let mut app = music_app(true);
    load(&mut app, "/music/one.mp3");
    for code in [Key::Up, Key::Down, Key::Home, Key::End, Key::Enter, Key::Char('n'), Key::Char('s')] {
        app.on_key(press(code), sink(false, 1));
        assert!(app.selected_entry().is_some());
    }
}

#[test]
fn root_has_no_parent() {
    let mut app = App::new(path("/"), true, Ok(Vec::new())).0;
    assert!(matches!(app.on_key(press(Key::Char('h')), None), Action::Nothing));
    assert_eq!(text(&app.cwd), "/");
}

#[test]
fn opening_a_file_plays_it_with_its_known_length() {
    let mut app = music_app(true);
    app.drain_durations(&vec![DurationMsg {
        scan_gen: 1,
        path: path("/music/one.mp3"),
        duration: Some(TimeSpan::new(42, 0)),
    }]);
    app.move_selection(1);
    match app.on_key(press(Key::Char('l')), None) {
        Action::Play { path, known_duration } => {
            assert_eq!(text(&path), "/music/one.mp3");
            assert_eq!(known_duration.unwrap().secs(), 42);
        }
        _ => panic!("nothing to play"),
    }
}

#[test]
fn opening_a_file_without_audio_is_reported() {
    let mut app = music_app(false);
    app.move_selection(1);
    assert!(matches!(app.on_key(press(Key::Enter), None), Action::Nothing));
    assert_eq!(app.status.as_deref(), Some("no audio output device"));
}

#[test]
fn opened_file_is_loaded_and_clears_the_status() {
    let mut app = music_app(true);
    app.sought(Err("NotSupported".to_string()));
    assert_eq!(app.status.as_deref(), Some("seek failed: NotSupported"));
    app.opened(path("/music/one.mp3"), None, Ok(Some(TimeSpan::new(5, 0))));
    let player = app.player.as_ref().unwrap();
    assert_eq!(text(player.current.as_ref().unwrap()), "/music/one.mp3");
    assert_eq!(player.total.unwrap().secs(), 5);
    assert!(app.status.is_none());
}

#[test]
fn seek_that_went_well_leaves_the_status() {
    let mut app = music_app(true);
    app.sought(Ok(()));
    assert!(app.status.is_none());
    app.sought(Err("x".to_string()));
    app.sought(Ok(()));
    assert_eq!(app.status.as_deref(), Some("seek failed: x"));
}

#[test]
fn file_that_cannot_be_opened_leaves_the_track() {
    let mut app = music_app(true);
    load(&mut app, "/music/one.mp3");
    app.opened(path("/music/two.mp3"), None, Err("no decoder".to_string()));
    assert_eq!(app.status.as_deref(), Some("cannot play /music/two.mp3: no decoder"));
    let player = app.player.as_ref().unwrap();
    assert_eq!(text(player.current.as_ref().unwrap()), "/music/one.mp3");
}

#[test]
fn opened_without_audio_changes_nothing() {
    let mut app = music_app(false);
    load(&mut app, "/music/one.mp3");
    assert!(app.player.is_none() && app.status.is_none());
}

#[test]
fn next_file_follows_a_finished_track() {
    let mut app = music_app(true);
    load(&mut app, "/music/one.mp3");
    assert!(matches!(app.auto_advance(sink(false, 1)), Action::Nothing));
    match app.auto_advance(sink(true, 1)) {
        Action::Play { path, known_duration } => {
            assert_eq!(text(&path), "/music/two.mp3");
            assert!(known_duration.is_none());
        }
        _ => panic!("nothing to play"),
    }
    assert_eq!(app.table.selected, Some(2));
}

#[test]
fn player_stops_behind_the_last_file() {
    for last in ["/music/two.mp3", "/elsewhere/x.mp3"] {
        let mut app = music_app(true);
        load(&mut app, last);
        assert!(matches!(app.auto_advance(sink(true, 1)), Action::Stop));
        assert!(app.player.as_ref().unwrap().current.is_none());
        assert!(matches!(app.auto_advance(None), Action::Nothing));
    }
}

#[test]
fn pause_key_orders_the_sink() {
    let mut app = music_app(true);
    assert!(matches!(app.on_key(press(Key::Char(' ')), sink(false, 0)), Action::Pause));
    let paused = Some(SinkReport { paused: true, empty: false, position: TimeSpan::new(0, 0) });
    assert!(matches!(app.on_key(press(Key::Char(' ')), paused), Action::Resume));
    assert!(matches!(app.on_key(press(Key::Char(' ')), None), Action::Nothing));
}

#[test]
fn stop_key_unloads_the_track() {
    let mut app = music_app(true);
    load(&mut app, "/music/one.mp3");
    assert!(matches!(app.on_key(press(Key::Char('s')), sink(false, 0)), Action::Stop));
    assert!(app.player.as_ref().unwrap().current.is_none());
}

#[test]
fn seek_keys_move_by_five_and_thirty_seconds() {
    let mut app = music_app(true);
    load(&mut app, "/music/one.mp3");
    for (key, expected) in [
        (press(Key::Right), 105),
        (press(Key::Left), 95),
        (press(Key::Char(']')), 130),
        (press(Key::Char('[')), 70),
        (KeyInput { press: true, code: Key::Right, shift: true, control: false }, 130),
    ] {
        match app.on_key(key, sink(false, 100)) {
            Action::Seek { target } => assert_eq!(target.secs(), expected),
            _ => panic!("no seek"),
        }
    }
    assert!(matches!(app.on_key(press(Key::Right), None), Action::Nothing));
}

#[test]
fn volume_keys_turn_the_volume() {
    let mut app = music_app(true);
    assert!(matches!(app.on_key(press(Key::Char('+')), None), Action::AdjustVolume { up: true }));
    assert!(matches!(app.on_key(press(Key::Char('=')), None), Action::AdjustVolume { up: true }));
    assert!(matches!(app.on_key(press(Key::Char('-')), None), Action::AdjustVolume { up: false }));
}

#[test]
fn without_audio_the_sink_is_left_alone() {
    let mut app = music_app(false);
    for c in [' ', 's', '+', '-', ']', '['] {
        assert!(matches!(app.on_key(press(Key::Char(c)), sink(false, 3)), Action::Nothing));
    }
    assert!(matches!(app.auto_advance(sink(true, 3)), Action::Nothing));
}

#[test]
fn hidden_key_toggles_and_keeps_the_selection() {
    let mut app = music_app(true);
    app.move_selection(2);
    match app.on_key(press(Key::Char('.')), None) {
        Action::Rescan { select: Some(p) } => {
            assert_eq!(text(&p), "/music/two.mp3");
            app.rescan(Ok(items("/music", &MUSIC)), Some(p));
        }
        _ => panic!("no scan"),
    }
    assert!(app.show_hidden);
    assert_eq!(names(&app), vec!["Albums", ".hid.mp3", "one.mp3", "two.mp3"]);
    assert_eq!(app.table.selected, Some(3));
    app.on_key(press(Key::Char('.')), None);
    assert!(!app.show_hidden);
}

#[test]
fn refresh_key_reads_the_directory_again() {
    let mut app = music_app(true);
    match app.on_key(press(Key::Char('r')), None) {
        Action::Rescan { select: Some(p) } => assert_eq!(text(&p), "/music/Albums"),
        _ => panic!("no scan"),
    }
}

#[test]
fn complaint_names_the_subject_and_the_reason() {
    assert_eq!(complaint("cannot read ", "/x", "denied"), "cannot read /x: denied");
}

#[test]
fn hiding_only_removes_rows() {
    let mut app = music_app(true);
    let without = names(&app);
    app.on_key(press(Key::Char('.')), None);
    app.rescan(Ok(items("/music", &MUSIC)), None);
    let with: Vec<String> = names(&app).into_iter().filter(|n| !n.starts_with('.')).collect();
    assert_eq!(with, without);
}

#[test]
fn later_files_play_in_order() {
    let listed = [("a.mp3", false), ("c.mp3", false), ("b.mp3", false), ("d", true)];
    let mut app = App::new(path("/m"), true, Ok(items("/m", &listed))).0;
    load(&mut app, "/m/a.mp3");
    let mut heard: Vec<String> = Vec::new();
    for _ in 0..5 {
        if let Action::Play { path, known_duration } = app.auto_advance(sink(true, 9)) {
            heard.push(text(&path));
            app.opened(path, known_duration, Ok(None));
        }
    }
    assert_eq!(heard, vec!["/m/b.mp3", "/m/c.mp3"]);
    assert!(app.player.as_ref().unwrap().current.is_none());
}
