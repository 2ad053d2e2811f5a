//! What the keys and commands do, and what the sink's answers lead to.
use crate::app::{command_for, ActionView, AppView, Command, Key, KeyInput, TableState};
use crate::laws::scans::{is_first_with, is_missing, law_known_length, law_search};
use crate::listing::{find_file, find_path, law_find_file_is_first, law_find_path_is_first};
use crate::path::{components, law_parent_drops_last_component, law_parent_is_start_of_path, SLASH};
use crate::player::{is_seek_target, law_seek_follows_step, PlayerView, SinkReport};
use crate::text::shown_text;
use vstd::prelude::*;

verus! {

/// Row `i` has been selected, and nothing else has changed.
pub open spec fn selects_row(app: AppView, after: AppView, i: int) -> bool {
    &&& 0 <= i < app.entries.len()
    &&& after.table.selected == Some(i as usize)
    &&& after.table.offset == app.table.offset
    &&& after == (AppView { table: after.table, ..app })
}

/// The selection has moved by so many rows from where it was, or from the top
/// where there was none: to that row where there is such a row, else to the top
/// or to the bottom row. Nothing else has changed.
pub open spec fn moves_selection(app: AppView, rows: int, after: AppView) -> bool {
    let to = rows + if app.table.selected is Some {
        app.table.selected->0 as int
    } else {
        0
    };
    let count = app.entries.len();
    &&& count == 0 ==> after == app
    &&& 0 <= to < count ==> selects_row(app, after, to)
    &&& count > 0 && to < 0 ==> selects_row(app, after, 0)
    &&& count > 0 && to >= count ==> selects_row(app, after, count - 1)
}

/// A move selects the row so far down or up, as far as there are rows.
pub proof fn law_move(app: AppView, rows: int)
    requires
        app.entries.len() <= usize::MAX,
    ensures
        moves_selection(app, rows, app.move_selection(rows)),
{
}

/// The selected entry is that of the row that is selected, where there is such a
/// row.
pub proof fn law_selected_entry(app: AppView, i: usize)
    requires
        app.table.selected == Some(i),
    ensures
        i < app.entries.len() ==> app.selected_entry() == Some(app.entries[i as int]),
        i < app.entries.len() ==> app.selected_path() == Some(app.entries[i as int].path),
        i >= app.entries.len() ==> app.selected_entry() is None && app.selected_path() is None,
        (AppView { table: TableState { selected: None, ..app.table }, ..app }).selected_entry()
            is None,
        (AppView { table: TableState { selected: None, ..app.table }, ..app }).selected_path()
            is None,
{
}

/// A length that the listing knows of a path: that of the first row that has it.
pub open spec fn is_listed_length(app: AppView, path: Seq<u8>, length: Option<nat>) -> bool {
    &&& forall|i: int|
        #[trigger] is_first_with(app.entries, path, i) ==> length == app.entries[i].duration
    &&& is_missing(app.entries, path) ==> length is None
}

/// The file with this path is asked for, with the length that the listing knows,
/// and nothing has changed; without an audio output nothing is asked for, and
/// the status line says so.
pub open spec fn asks_for_file(
    app: AppView,
    path: Seq<u8>,
    after: AppView,
    action: ActionView,
) -> bool {
    &&& app.player is Some ==> {
        &&& after == app
        &&& action matches ActionView::Play { path: asked, known_duration } && asked == path
            && is_listed_length(app, path, known_duration)
    }
    &&& app.player is None ==> {
        &&& after == (AppView { status: Some("no audio output device"@), ..app })
        &&& action is Nothing
    }
}

/// A file that is to be played is asked for, whatever is loaded.
pub proof fn law_play(app: AppView, path: Seq<u8>)
    ensures
        asks_for_file(app, path, app.play_path(path).0, app.play_path(path).1),
{
    lemma_known_length(app, path);
}

proof fn lemma_known_length(app: AppView, path: Seq<u8>)
    ensures
        is_listed_length(app, path, app.known_duration(path)),
{
    assert forall|i: int| #[trigger] is_first_with(app.entries, path, i) implies app.known_duration(
        path,
    ) == app.entries[i].duration by {
        law_known_length(app, path, i);
    }
    law_known_length(app, path, 0);
}

/// The row that is selected has been opened: a directory is the working
/// directory now and is to be read, a file is asked for. Where no row is
/// selected nothing happens.
pub open spec fn opens_selection(app: AppView, after: AppView, action: ActionView) -> bool {
    match app.table.selected {
        Some(i) if i < app.entries.len() => {
            let e = app.entries[i as int];
            if e.is_dir {
                &&& after == (AppView { cwd: e.path, ..app })
                &&& action == (ActionView::Rescan { select: None })
            } else {
                asks_for_file(app, e.path, after, action)
            }
        },
        _ => after == app && action is Nothing,
    }
}

/// Opening the selection enters that very directory or asks for that very file,
/// whatever is loaded.
pub proof fn law_open(app: AppView)
    ensures
        opens_selection(app, app.enter_selected().0, app.enter_selected().1),
{
    if let Some(i) = app.table.selected {
        if i < app.entries.len() {
            law_play(app, app.entries[i as int].path);
        }
    }
}

/// The working directory is the one above, which is to be read, and the
/// directory that was left is to be selected in it. Above the root, and above
/// the empty path, there is none; then nothing happens.
pub open spec fn goes_up(app: AppView, after: AppView, action: ActionView) -> bool {
    let steps = components(app.cwd);
    if steps.len() == 0 || steps == seq![seq![SLASH]] {
        after == app && action is Nothing
    } else {
        &&& components(after.cwd) == steps.drop_last()
        &&& after.cwd.len() <= app.cwd.len()
        &&& after.cwd == app.cwd.take(after.cwd.len() as int)
        &&& after == (AppView { cwd: after.cwd, ..app })
        &&& action == (ActionView::Rescan { select: Some(app.cwd) })
    }
}

/// Going up leads to the directory above.
pub proof fn law_go_up(app: AppView)
    ensures
        goes_up(app, app.go_up().0, app.go_up().1),
{
    law_parent_drops_last_component(app.cwd);
    law_parent_is_start_of_path(app.cwd);
}

/// The player holds nothing any more and the sink is to be dropped; without a
/// player nothing happens.
pub open spec fn unloads(app: AppView, after: AppView, action: ActionView) -> bool {
    if app.player is Some {
        &&& after == (AppView { player: Some(PlayerView { current: None, total: None }), ..app })
        &&& action is Stop
    } else {
        after == app && action is Nothing
    }
}

/// Stopping unloads the track.
pub proof fn law_stop(app: AppView)
    ensures
        unloads(app, app.stop().0, app.stop().1),
{
}

/// The sink is to be moved by the step from where it is; without a player or a
/// sink nothing is asked for.
pub open spec fn asks_for_seek(
    app: AppView,
    forward: bool,
    step: nat,
    sink: Option<SinkReport>,
    action: ActionView,
) -> bool {
    if app.player is Some && sink is Some {
        action matches ActionView::Seek { target } && is_seek_target(
            target as int,
            sink->0.position@ as int,
            forward,
            step as int,
            app.player->0.total,
        )
    } else {
        action is Nothing
    }
}

/// A seek goes by the position of the sink and the length of the loaded track.
pub proof fn law_seek(app: AppView, forward: bool, step: nat, sink: Option<SinkReport>)
    ensures
        asks_for_seek(app, forward, step, sink, app.seek(forward, step, sink)),
{
    if app.player is Some && sink is Some {
        law_seek_follows_step(sink->0.position@, forward, step, app.player->0.total);
    }
}

/// A seek that went well changes nothing; one that failed is told of in the
/// status line, and changes nothing else.
pub proof fn law_sought(app: AppView, reason: Seq<char>)
    ensures
        app.sought(Ok(())) == app,
        app.sought(Err(reason)).status == Some("seek failed: "@ + reason),
        app.sought(Err(reason)) == (AppView { status: app.sought(Err(reason)).status, ..app }),
{
}

/// After a file was opened well it is the loaded track, its length is the known
/// one or else the decoder's, whatever was loaded before, and there is no
/// message. After a failure there is a message on that file, and what was loaded
/// is kept. Nothing else changes, and nothing at all without a player.
pub proof fn law_opened(
    app: AppView,
    path: Seq<u8>,
    known: Option<nat>,
    source: Option<nat>,
    reason: Seq<char>,
)
    ensures
        app.player is None ==> app.opened(path, known, Ok(source)) == app && app.opened(
            path,
            known,
            Err(reason),
        ) == app,
        app.player is Some ==> {
            let after = app.opened(path, known, Ok(source));
            &&& after == (AppView { player: after.player, status: None, ..app })
            &&& after.player matches Some(p) && {
                &&& p.current == Some(path)
                &&& known is Some ==> p.total == known
                &&& known is None ==> p.total == source
            }
        },
        app.player is Some ==> app.opened(path, known, Err(reason)) == (AppView {
            status: Some("cannot play "@ + shown_text(path) + ": "@ + reason),
            ..app
        }),
{
}

/// What was loaded before makes no difference to the player after a file was
/// opened well.
pub proof fn law_opening_forgets_last_track(
    app: AppView,
    other: PlayerView,
    path: Seq<u8>,
    known: Option<nat>,
    source: Option<nat>,
)
    requires
        app.player is Some,
    ensures
        (AppView { player: Some(other), ..app }).opened(path, known, Ok(source)) == app.opened(
            path,
            known,
            Ok(source),
        ),
{
}

/// Nothing advances while nothing is loaded, or while the sink still has
/// something to play.
pub proof fn law_advance_waits(app: AppView, sink: Option<SinkReport>)
    requires
        app.player is None || app.player->0.current is None || (sink matches Some(s) && !s.empty),
    ensures
        app.auto_advance(sink) == (app, ActionView::Nothing),
{
}

/// Row `n` is the first file below row `i`.
pub open spec fn is_next_file(app: AppView, i: int, n: int) -> bool {
    &&& i < n < app.entries.len()
    &&& !app.entries[n].is_dir
    &&& forall|j: int| i < j < n ==> (#[trigger] app.entries[j]).is_dir
}

/// When the sink of the loaded track has nothing left to play, or there is none,
/// the first file below the track's row is asked for and the first row with its
/// path is selected.
pub proof fn law_advance_plays_next(
    app: AppView,
    sink: Option<SinkReport>,
    current: Seq<u8>,
    i: int,
    n: int,
    r: int,
)
    requires
        app.player is Some,
        app.player->0.current == Some(current),
        sink is None || sink->0.empty,
        is_first_with(app.entries, current, i),
        is_next_file(app, i, n),
        is_first_with(app.entries, app.entries[n].path, r),
    ensures
        selects_row(app, app.auto_advance(sink).0, r),
        app.auto_advance(sink).1 matches ActionView::Play { path, known_duration } && path
            == app.entries[n].path && known_duration == app.entries[r].duration,
{
    law_search(app.entries, current, i);
    law_find_file_is_first(app.entries, i + 1);
    let f = find_file(app.entries, i + 1);
    assert(f == Some(n)) by {
        if let Some(k) = f {
            if k < n {
                assert(app.entries[k].is_dir);
            } else if k > n {
                assert(app.entries[n].is_dir);
            }
        } else {
            assert(app.entries[n].is_dir);
        }
    }
    law_search(app.entries, app.entries[n].path, r);
}

/// When a track has ended that is not listed, or below whose row there are only
/// directories, it is unloaded.
pub proof fn law_advance_stops(
    app: AppView,
    sink: Option<SinkReport>,
    current: Seq<u8>,
    i: int,
)
    requires
        app.player is Some,
        app.player->0.current == Some(current),
        sink is None || sink->0.empty,
        is_missing(app.entries, current) || (is_first_with(app.entries, current, i) && forall|
            j: int,
        |
            i < j < app.entries.len() ==> (#[trigger] app.entries[j]).is_dir),
    ensures
        unloads(app, app.auto_advance(sink).0, app.auto_advance(sink).1),
{
    law_search(app.entries, current, i);
    if find_path(app.entries, current, 0) is Some {
        law_find_path_is_first(app.entries, current, 0);
        law_find_file_is_first(app.entries, i + 1);
        if let Some(n) = find_file(app.entries, i + 1) {
            assert(app.entries[n].is_dir);
        }
    }
}

/// The directory is to be read again, with the path of the selected row kept.
pub open spec fn asks_for_scan(app: AppView, action: ActionView) -> bool {
    action matches ActionView::Rescan { select } && match app.table.selected {
        Some(i) if i < app.entries.len() => select == Some(app.entries[i as int].path),
        _ => select is None,
    }
}

/// The sink, where there is a player and a sink, is to pause if it plays and to
/// play on if it is paused.
pub open spec fn asks_for_pause(
    app: AppView,
    sink: Option<SinkReport>,
    action: ActionView,
) -> bool {
    &&& app.player is None || sink is None ==> action is Nothing
    &&& app.player is Some && sink is Some && sink->0.paused ==> action is Resume
    &&& app.player is Some && sink is Some && !sink->0.paused ==> action is Pause
}

/// The volume is to be turned, where there is a player.
pub open spec fn asks_for_volume(app: AppView, up: bool, action: ActionView) -> bool {
    if app.player is Some {
        action == (ActionView::AdjustVolume { up })
    } else {
        action is Nothing
    }
}

/// What each command does, and that it does nothing else.
pub proof fn law_commands(
    app: AppView,
    sink: Option<SinkReport>,
    rows: isize,
    forward: bool,
    up: bool,
)
    requires
        app.entries.len() <= usize::MAX,
    ensures
        app.obey(Command::Ignore, sink) == (app, ActionView::Nothing),
        app.obey(Command::Quit, sink) == (AppView { quit: true, ..app }, ActionView::Nothing),
        moves_selection(app, rows as int, app.obey(Command::Move { rows }, sink).0),
        app.obey(Command::Move { rows }, sink).1 is Nothing,
        moves_selection(app, -usize::MAX, app.obey(Command::First, sink).0),
        app.obey(Command::First, sink).1 is Nothing,
        moves_selection(app, usize::MAX as int, app.obey(Command::Last, sink).0),
        app.obey(Command::Last, sink).1 is Nothing,
        opens_selection(
            app,
            app.obey(Command::Open, sink).0,
            app.obey(Command::Open, sink).1,
        ),
        goes_up(app, app.obey(Command::GoUp, sink).0, app.obey(Command::GoUp, sink).1),
        app.obey(Command::TogglePause, sink).0 == app,
        asks_for_pause(app, sink, app.obey(Command::TogglePause, sink).1),
        unloads(app, app.obey(Command::Stop, sink).0, app.obey(Command::Stop, sink).1),
        app.obey(Command::Seek { forward, big: false }, sink).0 == app,
        asks_for_seek(
            app,
            forward,
            5_000_000_000,
            sink,
            app.obey(Command::Seek { forward, big: false }, sink).1,
        ),
        app.obey(Command::Seek { forward, big: true }, sink).0 == app,
        asks_for_seek(
            app,
            forward,
            30_000_000_000,
            sink,
            app.obey(Command::Seek { forward, big: true }, sink).1,
        ),
        app.obey(Command::Volume { up }, sink).0 == app,
        asks_for_volume(app, up, app.obey(Command::Volume { up }, sink).1),
        app.obey(Command::ToggleHidden, sink).0 == (AppView {
            show_hidden: !app.show_hidden,
            ..app
        }),
        asks_for_scan(app, app.obey(Command::ToggleHidden, sink).1),
        app.obey(Command::Refresh, sink).0 == app,
        asks_for_scan(app, app.obey(Command::Refresh, sink).1),
{
    law_open(app);
    law_go_up(app);
    law_seek(app, forward, 5_000_000_000, sink);
    law_seek(app, forward, 30_000_000_000, sink);
}

/// The arrows and `j` and `k` move the selection by one row, the page keys by
/// fifteen, Home and `g` to the top, End and `G` to the bottom. They ask for
/// nothing, and what is held with them makes no difference.
pub proof fn law_movement_keys(app: AppView, key: KeyInput, sink: Option<SinkReport>)
    requires
        app.entries.len() <= usize::MAX,
        key.press,
    ensures
        ({
            let (after, action) = app.on_key(key, sink);
            let code = key.code;
            &&& code == Key::Down || code == Key::Char('j') ==> moves_selection(app, 1, after)
                && action is Nothing
            &&& code == Key::Up || code == Key::Char('k') ==> moves_selection(app, -1, after)
                && action is Nothing
            &&& code == Key::PageDown ==> moves_selection(app, 15, after) && action is Nothing
            &&& code == Key::PageUp ==> moves_selection(app, -15, after) && action is Nothing
            &&& code == Key::Home || code == Key::Char('g') ==> (app.entries.len() == 0 && after
                == app || selects_row(app, after, 0)) && action is Nothing
            &&& code == Key::End || code == Key::Char('G') ==> (app.entries.len() == 0 && after
                == app || selects_row(app, after, app.entries.len() - 1)) && action is Nothing
        }),
{
}

/// Enter and `l` open the selection, Backspace and `h` go up, `.` shows or hides
/// the hidden entries, and `r` reads the directory again.
pub proof fn law_listing_keys(app: AppView, key: KeyInput, sink: Option<SinkReport>)
    requires
        key.press,
    ensures
        ({
            let (after, action) = app.on_key(key, sink);
            let code = key.code;
            &&& code == Key::Enter || code == Key::Char('l') ==> opens_selection(app, after, action)
            &&& code == Key::Backspace || code == Key::Char('h') ==> goes_up(app, after, action)
            &&& code == Key::Char('.') ==> after == (AppView {
                show_hidden: !app.show_hidden,
                ..app
            }) && asks_for_scan(app, action)
            &&& code == Key::Char('r') ==> after == app && asks_for_scan(app, action)
        }),
{
    law_open(app);
    law_go_up(app);
}

/// The space bar pauses or plays on, `s` unloads the track, the arrows seek by
/// five seconds or with Shift by thirty, the brackets by thirty, and the signs
/// turn the volume.
pub proof fn law_player_keys(app: AppView, key: KeyInput, sink: Option<SinkReport>)
    requires
        key.press,
    ensures
        ({
            let (after, action) = app.on_key(key, sink);
            let code = key.code;
            &&& code == Key::Char(' ') ==> after == app && asks_for_pause(app, sink, action)
            &&& code == Key::Char('s') ==> unloads(app, after, action)
            &&& code == Key::Right && !key.shift ==> after == app && asks_for_seek(
                app,
                true,
                5_000_000_000,
                sink,
                action,
            )
            &&& code == Key::Left && !key.shift ==> after == app && asks_for_seek(
                app,
                false,
                5_000_000_000,
                sink,
                action,
            )
            &&& (code == Key::Right && key.shift) || code == Key::Char(']') ==> after == app
                && asks_for_seek(app, true, 30_000_000_000, sink, action)
            &&& (code == Key::Left && key.shift) || code == Key::Char('[') ==> after == app
                && asks_for_seek(app, false, 30_000_000_000, sink, action)
            &&& code == Key::Char('+') || code == Key::Char('=') ==> after == app
                && asks_for_volume(app, true, action)
            &&& code == Key::Char('-') ==> after == app && asks_for_volume(app, false, action)
        }),
{
    law_seek(app, true, 5_000_000_000, sink);
    law_seek(app, false, 5_000_000_000, sink);
    law_seek(app, true, 30_000_000_000, sink);
    law_seek(app, false, 30_000_000_000, sink);
}

/// A character that is the key of something.
pub open spec fn is_bound(c: char) -> bool {
    c == 'q' || c == 'j' || c == 'k' || c == 'g' || c == 'G' || c == 'l' || c == 'h' || c == ' '
        || c == 's' || c == ']' || c == '[' || c == '+' || c == '=' || c == '-' || c == '.' || c
        == 'r'
}

/// The keys that leave the application do only that, and ask for nothing. Any key
/// that is the key of nothing does nothing, `c` without Control among them.
pub proof fn law_other_keys(app: AppView, key: KeyInput, sink: Option<SinkReport>, c: char)
    requires
        key.press,
    ensures
        key.code == Key::Esc || key.code == Key::Char('q') || (key.code == Key::Char('c')
            && key.control) ==> app.on_key(key, sink) == (
            AppView { quit: true, ..app },
            ActionView::Nothing,
        ),
        key.code == Key::Other ==> app.on_key(key, sink) == (app, ActionView::Nothing),
        key.code == Key::Char(c) && !is_bound(c) && !(c == 'c' && key.control) ==> app.on_key(
            key,
            sink,
        ) == (app, ActionView::Nothing),
{
}

/// A key does what its command does, in every state.
pub proof fn law_key_is_its_command(app: AppView, key: KeyInput, sink: Option<SinkReport>)
    ensures
        app.on_key(key, sink) == app.obey(command_for(key), sink),
{
}

/// The two keys ask for the same.
pub open spec fn are_alike(key: KeyInput, a: Key, b: Key) -> bool {
    command_for(KeyInput { code: a, ..key }) == command_for(KeyInput { code: b, ..key })
}

/// Shift makes a difference to the arrows that seek alone, and Control to `c`
/// alone. The keys that come in pairs ask for the same.
pub proof fn law_keys_in_pairs(key: KeyInput, shift: bool, control: bool)
    ensures
        key.code != Key::Left && key.code != Key::Right ==> command_for(KeyInput { shift, ..key })
            == command_for(key),
        key.code != Key::Char('c') ==> command_for(KeyInput { control, ..key }) == command_for(key),
        are_alike(key, Key::Down, Key::Char('j')),
        are_alike(key, Key::Up, Key::Char('k')),
        are_alike(key, Key::Home, Key::Char('g')),
        are_alike(key, Key::End, Key::Char('G')),
        are_alike(key, Key::Enter, Key::Char('l')),
        are_alike(key, Key::Backspace, Key::Char('h')),
        are_alike(KeyInput { shift: true, ..key }, Key::Right, Key::Char(']')),
        are_alike(KeyInput { shift: true, ..key }, Key::Left, Key::Char('[')),
        are_alike(key, Key::Char('+'), Key::Char('=')),
        are_alike(key, Key::Esc, Key::Char('q')),
{
}

} // verus!
