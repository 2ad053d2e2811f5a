//! The state of the application, and how it answers keys, scans and the sink.
use crate::listing::{
    by_name, entry_views, files_of, file_paths, find_entry, find_file, find_path, is_stable_sort,
    item_views, list_entries, listed_entries, next_file, path_views, span_view, DirItem,
    DirItemView, Entry, EntryView,
};
use crate::path::{parent_of, UnixPath};
use crate::player::{
    idle_player, path_view, seek_target, PauseOrder, Player, PlayerView, SinkReport,
};
use crate::text::shown_text;
use crate::time::{TimeSpan, NANOS_PER_SEC};
use vstd::prelude::*;

verus! {

/// The state of the table: the first row that is shown, and the row that is
/// selected.
#[derive(Clone, Copy, PartialEq, Eq, Debug)]
pub struct TableState {
    pub offset: usize,
    pub selected: Option<usize>,
}

/// A table in which a row, or none, has been selected; without a selection the
/// table is shown from its top.
pub open spec fn table_select(table: TableState, index: Option<usize>) -> TableState {
    TableState {
        offset: if index is None {
            0
        } else {
            table.offset
        },
        selected: index,
    }
}

impl TableState {
    /// Selects a row, or none.
    pub fn select(&mut self, index: Option<usize>)
        ensures
            *final(self) == table_select(*old(self), index),
    {
        self.selected = index;
        if index.is_none() {
            self.offset = 0;
        }
    }
}

/// The length of a file as a probe found it, with the scan that asked for it.
pub struct DurationMsg {
    pub scan_gen: u64,
    pub path: UnixPath,
    pub duration: Option<TimeSpan>,
}

/// What such a message holds.
pub struct DurationMsgView {
    pub scan_gen: u64,
    pub path: Seq<u8>,
    pub duration: Option<nat>,
}

impl View for DurationMsg {
    type V = DurationMsgView;

    open spec fn view(&self) -> DurationMsgView {
        DurationMsgView {
            scan_gen: self.scan_gen,
            path: self.path@,
            duration: span_view(self.duration),
        }
    }
}

/// What the messages of a vector hold.
pub open spec fn message_views(v: Seq<DurationMsg>) -> Seq<DurationMsgView> {
    Seq::new(v.len(), |i: int| v[i]@)
}

/// The keys that the application knows.
#[derive(Clone, Copy, PartialEq, Eq, Debug)]
pub enum Key {
    Char(char),
    Esc,
    Down,
    Up,
    PageDown,
    PageUp,
    Home,
    End,
    Enter,
    Backspace,
    Left,
    Right,
    Other,
}

/// A key event: whether the key went down, and what was held with it.
#[derive(Clone, Copy, PartialEq, Eq, Debug)]
pub struct KeyInput {
    pub press: bool,
    pub code: Key,
    pub shift: bool,
    pub control: bool,
}

/// What a key asks for.
#[derive(Clone, Copy, PartialEq, Eq, Debug)]
pub enum Command {
    /// Nothing.
    Ignore,
    /// Leave the application.
    Quit,
    /// Move the selection by so many rows.
    Move { rows: isize },
    /// Select the first row.
    First,
    /// Select the last row.
    Last,
    /// Open the selected entry.
    Open,
    /// Go to the parent directory.
    GoUp,
    /// Pause, or play on.
    TogglePause,
    /// Unload the track.
    Stop,
    /// Move within the track, by the long or the short step.
    Seek { forward: bool, big: bool },
    /// Turn the volume up or down.
    Volume { up: bool },
    /// Show the hidden entries, or hide them.
    ToggleHidden,
    /// Read the directory again.
    Refresh,
}

/// The command of a key. Only a key that goes down has one.
pub open spec fn command_for(key: KeyInput) -> Command {
    if !key.press {
        Command::Ignore
    } else {
        match key.code {
            Key::Esc => Command::Quit,
            Key::Down => Command::Move { rows: 1 },
            Key::Up => Command::Move { rows: (-1) as isize },
            Key::PageDown => Command::Move { rows: 15 },
            Key::PageUp => Command::Move { rows: (-15) as isize },
            Key::Home => Command::First,
            Key::End => Command::Last,
            Key::Enter => Command::Open,
            Key::Backspace => Command::GoUp,
            Key::Right => Command::Seek { forward: true, big: key.shift },
            Key::Left => Command::Seek { forward: false, big: key.shift },
            Key::Other => Command::Ignore,
            Key::Char(c) => if c == 'q' || (c == 'c' && key.control) {
                Command::Quit
            } else if c == 'j' {
                Command::Move { rows: 1 }
            } else if c == 'k' {
                Command::Move { rows: (-1) as isize }
            } else if c == 'g' {
                Command::First
            } else if c == 'G' {
                Command::Last
            } else if c == 'l' {
                Command::Open
            } else if c == 'h' {
                Command::GoUp
            } else if c == ' ' {
                Command::TogglePause
            } else if c == 's' {
                Command::Stop
            } else if c == ']' {
                Command::Seek { forward: true, big: true }
            } else if c == '[' {
                Command::Seek { forward: false, big: true }
            } else if c == '+' || c == '=' {
                Command::Volume { up: true }
            } else if c == '-' {
                Command::Volume { up: false }
            } else if c == '.' {
                Command::ToggleHidden
            } else if c == 'r' {
                Command::Refresh
            } else {
                Command::Ignore
            },
        }
    }
}

/// What is to be done outside the application.
pub enum Action {
    /// Nothing.
    Nothing,
    /// Read the working directory, and select this path in it.
    Rescan { select: Option<UnixPath> },
    /// Open a file and play it.
    Play { path: UnixPath, known_duration: Option<TimeSpan> },
    /// Let the sink play on.
    Resume,
    /// Pause the sink.
    Pause,
    /// Stop the sink and drop it.
    Stop,
    /// Move the sink to this position.
    Seek { target: TimeSpan },
    /// Turn the volume up or down by a notch.
    AdjustVolume { up: bool },
}

/// What an action holds.
pub enum ActionView {
    Nothing,
    Rescan { select: Option<Seq<u8>> },
    Play { path: Seq<u8>, known_duration: Option<nat> },
    Resume,
    Pause,
    Stop,
    Seek { target: nat },
    AdjustVolume { up: bool },
}

impl View for Action {
    type V = ActionView;

    open spec fn view(&self) -> ActionView {
        match *self {
            Action::Nothing => ActionView::Nothing,
            Action::Rescan { select } => ActionView::Rescan { select: path_view(select) },
            Action::Play { path, known_duration } => ActionView::Play {
                path: path@,
                known_duration: span_view(known_duration),
            },
            Action::Resume => ActionView::Resume,
            Action::Pause => ActionView::Pause,
            Action::Stop => ActionView::Stop,
            Action::Seek { target } => ActionView::Seek { target: target@ },
            Action::AdjustVolume { up } => ActionView::AdjustVolume { up },
        }
    }
}

/// The application.
pub struct App {
    pub cwd: UnixPath,
    pub entries: Vec<Entry>,
    pub table: TableState,
    pub show_hidden: bool,
    pub scan_gen: u64,
    pub player: Option<Player>,
    pub status: Option<String>,
    pub quit: bool,
}

/// What the application holds.
pub struct AppView {
    pub cwd: Seq<u8>,
    pub entries: Seq<EntryView>,
    pub table: TableState,
    pub show_hidden: bool,
    pub scan_gen: int,
    pub player: Option<PlayerView>,
    pub status: Option<Seq<char>>,
    pub quit: bool,
}

/// What a player that may be missing holds.
pub open spec fn player_view(p: Option<Player>) -> Option<PlayerView> {
    match p {
        Some(p) => Some(p@),
        None => None,
    }
}

/// A text that may be missing.
pub open spec fn text_view(s: Option<String>) -> Option<Seq<char>> {
    match s {
        Some(s) => Some(s@),
        None => None,
    }
}

impl View for App {
    type V = AppView;

    open spec fn view(&self) -> AppView {
        AppView {
            cwd: self.cwd@,
            entries: entry_views(self.entries@),
            table: self.table,
            show_hidden: self.show_hidden,
            scan_gen: self.scan_gen as int,
            player: player_view(self.player),
            status: text_view(self.status),
            quit: self.quit,
        }
    }
}

/// The short step of a seek, in nanoseconds.
pub open spec fn seek_small() -> nat {
    5 * NANOS_PER_SEC as nat
}

/// The long step of a seek, in nanoseconds.
pub open spec fn seek_big() -> nat {
    30 * NANOS_PER_SEC as nat
}

/// An application in a directory that has not been read yet.
pub open spec fn unread_app(cwd: Seq<u8>, has_audio: bool) -> AppView {
    AppView {
        cwd,
        entries: Seq::empty(),
        table: TableState { offset: 0, selected: None },
        show_hidden: false,
        scan_gen: 0,
        player: if has_audio {
            Some(idle_player())
        } else {
            None
        },
        status: None,
        quit: false,
    }
}

impl AppView {
    /// With a row, or none, selected.
    pub open spec fn select(self, index: Option<usize>) -> AppView {
        AppView { table: table_select(self.table, index), ..self }
    }

    /// With a message in the status line.
    pub open spec fn with_status(self, status: Option<Seq<char>>) -> AppView {
        AppView { status, ..self }
    }

    /// The entry in the selected row.
    pub open spec fn selected_entry(self) -> Option<EntryView> {
        match self.table.selected {
            Some(i) => if i < self.entries.len() {
                Some(self.entries[i as int])
            } else {
                None
            },
            None => None,
        }
    }

    /// The path of the entry in the selected row.
    pub open spec fn selected_path(self) -> Option<Seq<u8>> {
        match self.selected_entry() {
            Some(e) => Some(e.path),
            None => None,
        }
    }

    /// With the selection moved by `delta` rows, as far as there are rows. An
    /// empty listing has nothing to select.
    pub open spec fn move_selection(self, delta: int) -> AppView {
        if self.entries.len() == 0 {
            self
        } else {
            let from: int = match self.table.selected {
                Some(i) => i as int,
                None => 0,
            };
            let to: int = if from + delta < 0 {
                0
            } else if from + delta > self.entries.len() - 1 {
                self.entries.len() - 1
            } else {
                from + delta
            };
            self.select(Some(to as usize))
        }
    }

    /// After a scan that could not read the directory.
    pub open spec fn unreadable(self, reason: Seq<char>) -> AppView {
        AppView {
            scan_gen: self.scan_gen + 1,
            entries: Seq::empty(),
            status: Some("cannot read "@ + shown_text(self.cwd) + ": "@ + reason),
            ..self
        }
    }

    /// After a scan that gave these entries: the path is selected where it is
    /// listed, else the first row.
    pub open spec fn scanned(self, entries: Seq<EntryView>, select: Option<Seq<u8>>) -> AppView {
        let index: int = match select {
            Some(path) => match find_path(entries, path, 0) {
                Some(i) => i,
                None => 0,
            },
            None => 0,
        };
        AppView { scan_gen: self.scan_gen + 1, entries, ..self }.select(
            if entries.len() == 0 {
                None
            } else {
                Some(index as usize)
            },
        )
    }

    /// Tells whether a scan that gave `read` may lead to the state `after` and
    /// ask for the lengths of `probes`.
    pub open spec fn rescans_to(
        self,
        read: Result<Seq<DirItemView>, Seq<char>>,
        select: Option<Seq<u8>>,
        after: AppView,
        probes: Seq<Seq<u8>>,
    ) -> bool {
        match read {
            Ok(items) => {
                &&& is_stable_sort(
                    by_name(listed_entries(self.show_hidden, items)),
                    by_name(after.entries),
                )
                &&& after == self.scanned(after.entries, select)
                &&& probes == file_paths(after.entries)
            },
            Err(reason) => after == self.unreadable(reason) && probes.len() == 0,
        }
    }

    /// With the length that a probe found. The answer to an earlier scan does
    /// not count, nor that for a path that is not listed.
    pub open spec fn with_duration(self, message: DurationMsgView) -> AppView {
        if message.scan_gen != self.scan_gen {
            self
        } else {
            match find_path(self.entries, message.path, 0) {
                Some(i) => AppView {
                    entries: self.entries.update(
                        i,
                        EntryView {
                            duration: message.duration,
                            duration_pending: false,
                            ..self.entries[i]
                        },
                    ),
                    ..self
                },
                None => self,
            }
        }
    }

    /// With the lengths that probes found, one after the other.
    pub open spec fn with_durations(self, messages: Seq<DurationMsgView>) -> AppView
        decreases messages.len(),
    {
        if messages.len() == 0 {
            self
        } else {
            self.with_durations(messages.drop_last()).with_duration(messages.last())
        }
    }

    /// The length of the first entry with the path, where it is known.
    pub open spec fn known_duration(self, path: Seq<u8>) -> Option<nat> {
        match find_path(self.entries, path, 0) {
            Some(i) => self.entries[i].duration,
            None => None,
        }
    }

    /// A file is to be played: it is opened, unless there is no audio output.
    pub open spec fn play_path(self, path: Seq<u8>) -> (AppView, ActionView) {
        if self.player is Some {
            (self, ActionView::Play { path, known_duration: self.known_duration(path) })
        } else {
            (self.with_status(Some("no audio output device"@)), ActionView::Nothing)
        }
    }

    /// After the attempt to open a file for the player: it is loaded and the
    /// status line cleared, or the reason is shown.
    pub open spec fn opened(
        self,
        path: Seq<u8>,
        known: Option<nat>,
        outcome: Result<Option<nat>, Seq<char>>,
    ) -> AppView {
        if self.player is None {
            self
        } else {
            match outcome {
                Ok(source) => AppView {
                    player: Some(
                        PlayerView {
                            current: Some(path),
                            total: if known is Some {
                                known
                            } else {
                                source
                            },
                        },
                    ),
                    status: None,
                    ..self
                },
                Err(reason) => self.with_status(
                    Some("cannot play "@ + shown_text(path) + ": "@ + reason),
                ),
            }
        }
    }

    /// The selected entry is opened: a directory becomes the working directory,
    /// a file is played.
    pub open spec fn enter_selected(self) -> (AppView, ActionView) {
        match self.selected_entry() {
            Some(e) => if e.is_dir {
                (AppView { cwd: e.path, ..self }, ActionView::Rescan { select: None })
            } else {
                self.play_path(e.path)
            },
            None => (self, ActionView::Nothing),
        }
    }

    /// The parent becomes the working directory, and the directory that was
    /// left is to be selected in it.
    pub open spec fn go_up(self) -> (AppView, ActionView) {
        match parent_of(self.cwd) {
            Some(parent) => (
                AppView { cwd: parent, ..self },
                ActionView::Rescan { select: Some(self.cwd) },
            ),
            None => (self, ActionView::Nothing),
        }
    }

    /// What a seek asks of the sink.
    pub open spec fn seek(
        self,
        forward: bool,
        step: nat,
        sink: Option<SinkReport>,
    ) -> ActionView {
        match (self.player, sink) {
            (Some(p), Some(s)) => ActionView::Seek {
                target: seek_target(s.position@, forward, step, p.total),
            },
            _ => ActionView::Nothing,
        }
    }

    /// After a seek of the sink: a failure is shown.
    pub open spec fn sought(self, outcome: Result<(), Seq<char>>) -> AppView {
        match outcome {
            Ok(_) => self,
            Err(reason) => self.with_status(Some("seek failed: "@ + reason)),
        }
    }

    /// The player, if there is one, is emptied.
    pub open spec fn stop(self) -> (AppView, ActionView) {
        if self.player is Some {
            (AppView { player: Some(idle_player()), ..self }, ActionView::Stop)
        } else {
            (self, ActionView::Nothing)
        }
    }

    /// The position of the file that follows the current track in the listing.
    pub open spec fn next_track(self) -> Option<int> {
        match self.player {
            Some(p) => match p.current {
                Some(current) => match find_path(self.entries, current, 0) {
                    Some(i) => find_file(self.entries, i + 1),
                    None => None,
                },
                None => None,
            },
            None => None,
        }
    }

    /// When a track has ended the next file of the listing is selected and
    /// played; where there is none, the player is emptied.
    pub open spec fn auto_advance(self, sink: Option<SinkReport>) -> (AppView, ActionView) {
        if !(self.player matches Some(p) && p.finished(sink)) {
            (self, ActionView::Nothing)
        } else {
            match self.next_track() {
                Some(n) => {
                    let path = self.entries[n].path;
                    match find_path(self.entries, path, 0) {
                        Some(i) => self.select(Some(i as usize)).play_path(path),
                        None => self.play_path(path),
                    }
                },
                None => self.stop(),
            }
        }
    }

    /// What a command does.
    pub open spec fn obey(
        self,
        command: Command,
        sink: Option<SinkReport>,
    ) -> (AppView, ActionView) {
        match command {
            Command::Ignore => (self, ActionView::Nothing),
            Command::Quit => (AppView { quit: true, ..self }, ActionView::Nothing),
            Command::Move { rows } => (self.move_selection(rows as int), ActionView::Nothing),
            Command::First => (
                if self.entries.len() == 0 {
                    self
                } else {
                    self.select(Some(0))
                },
                ActionView::Nothing,
            ),
            Command::Last => (
                if self.entries.len() == 0 {
                    self
                } else {
                    self.select(Some((self.entries.len() - 1) as usize))
                },
                ActionView::Nothing,
            ),
            Command::Open => self.enter_selected(),
            Command::GoUp => self.go_up(),
            Command::TogglePause => (
                self,
                match (self.player, sink) {
                    (Some(_), Some(s)) => if s.paused {
                        ActionView::Resume
                    } else {
                        ActionView::Pause
                    },
                    _ => ActionView::Nothing,
                },
            ),
            Command::Stop => self.stop(),
            Command::Seek { forward, big } => (
                self,
                self.seek(
                    forward,
                    if big {
                        seek_big()
                    } else {
                        seek_small()
                    },
                    sink,
                ),
            ),
            Command::Volume { up } => (
                self,
                if self.player is Some {
                    ActionView::AdjustVolume { up }
                } else {
                    ActionView::Nothing
                },
            ),
            Command::ToggleHidden => (
                AppView { show_hidden: !self.show_hidden, ..self },
                ActionView::Rescan { select: self.selected_path() },
            ),
            Command::Refresh => (self, ActionView::Rescan { select: self.selected_path() }),
        }
    }

    /// What a key does.
    pub open spec fn on_key(self, key: KeyInput, sink: Option<SinkReport>) -> (
        AppView,
        ActionView,
    ) {
        self.obey(command_for(key), sink)
    }
}

/// What the reading of a directory gave.
pub open spec fn read_view(read: Result<Vec<DirItem>, String>) -> Result<
    Seq<DirItemView>,
    Seq<char>,
> {
    match read {
        Ok(items) => Ok(item_views(items@)),
        Err(reason) => Err(reason@),
    }
}

/// What the opening of a file gave.
pub open spec fn outcome_view(outcome: Result<Option<TimeSpan>, String>) -> Result<
    Option<nat>,
    Seq<char>,
> {
    match outcome {
        Ok(d) => Ok(span_view(d)),
        Err(reason) => Err(reason@),
    }
}

/// What an order to the sink gave.
pub open spec fn unit_outcome_view(outcome: Result<(), String>) -> Result<(), Seq<char>> {
    match outcome {
        Ok(_) => Ok(()),
        Err(reason) => Err(reason@),
    }
}

/// The command of a key.
pub fn command_of(key: KeyInput) -> (r: Command)
    ensures
        r == command_for(key),
{
    if !key.press {
        return Command::Ignore;
    }
    match key.code {
        Key::Esc => Command::Quit,
        Key::Down => Command::Move { rows: 1 },
        Key::Up => Command::Move { rows: -1 },
        Key::PageDown => Command::Move { rows: 15 },
        Key::PageUp => Command::Move { rows: -15 },
        Key::Home => Command::First,
        Key::End => Command::Last,
        Key::Enter => Command::Open,
        Key::Backspace => Command::GoUp,
        Key::Right => Command::Seek { forward: true, big: key.shift },
        Key::Left => Command::Seek { forward: false, big: key.shift },
        Key::Other => Command::Ignore,
        Key::Char(c) => match c {
            'q' => Command::Quit,
            'c' => if key.control {
                Command::Quit
            } else {
                Command::Ignore
            },
            'j' => Command::Move { rows: 1 },
            'k' => Command::Move { rows: -1 },
            'g' => Command::First,
            'G' => Command::Last,
            'l' => Command::Open,
            'h' => Command::GoUp,
            ' ' => Command::TogglePause,
            's' => Command::Stop,
            ']' => Command::Seek { forward: true, big: true },
            '[' => Command::Seek { forward: false, big: true },
            '+' | '=' => Command::Volume { up: true },
            '-' => Command::Volume { up: false },
            '.' => Command::ToggleHidden,
            'r' => Command::Refresh,
            _ => Command::Ignore,
        },
    }
}

/// Writes what failed, on what, and why.
pub fn complaint(what: &str, subject: &str, reason: &str) -> (r: String)
    ensures
        r@ == what@ + subject@ + ": "@ + reason@,
{
    let mut r = what.to_owned();
    r.append(subject);
    r.append(": ");
    r.append(reason);
    r
}

impl App {
    /// An application that has read its directory for the first time, with the
    /// files whose lengths are to be probed.
    pub fn new(
        cwd: UnixPath,
        has_audio: bool,
        read: Result<Vec<DirItem>, String>,
    ) -> (r: (App, Vec<UnixPath>))
        ensures
            unread_app(cwd@, has_audio).rescans_to(
                read_view(read),
                None,
                r.0@,
                path_views(r.1@),
            ),
    {
        let mut app = App {
            cwd,
            entries: Vec::new(),
            table: TableState { offset: 0, selected: None },
            show_hidden: false,
            scan_gen: 0,
            player: if has_audio {
                Some(Player::new())
            } else {
                None
            },
            status: None,
            quit: false,
        };
        assert(app@.entries =~= Seq::<EntryView>::empty());
        let probes = app.rescan(read, None);
        (app, probes)
    }

    /// Takes in what the reading of the working directory gave, and returns the
    /// files whose lengths are to be probed under the new scan's number.
    pub fn rescan(
        &mut self,
        read: Result<Vec<DirItem>, String>,
        select: Option<UnixPath>,
    ) -> (probes: Vec<UnixPath>)
        requires
            old(self).scan_gen < u64::MAX,
        ensures
            old(self)@.rescans_to(
                read_view(read),
                path_view(select),
                final(self)@,
                path_views(probes@),
            ),
    {
        self.scan_gen = self.scan_gen + 1;
        match read {
            Err(reason) => {
                self.entries = Vec::new();
                self.status = Some(
                    complaint("cannot read ", self.cwd.display().as_str(), reason.as_str()),
                );
                assert(self@.entries =~= Seq::<EntryView>::empty());
                Vec::new()
            },
            Ok(items) => {
                self.entries = list_entries(self.show_hidden, &items);
                let index: usize = match select {
                    Some(path) => match find_entry(&self.entries, &path) {
                        Some(i) => i,
                        None => 0,
                    },
                    None => 0,
                };
                if self.entries.len() == 0 {
                    self.table.select(None);
                } else {
                    self.table.select(Some(index));
                }
                files_of(&self.entries)
            },
        }
    }

    /// Takes in the lengths that probes found.
    pub fn drain_durations(&mut self, messages: &Vec<DurationMsg>)
        ensures
            final(self)@ == old(self)@.with_durations(message_views(messages@)),
    {
        let ghost all = message_views(messages@);
        assert(all.take(0) =~= Seq::<DurationMsgView>::empty());
        let mut i: usize = 0;
        while i < messages.len()
            invariant
                i <= messages@.len(),
                all == message_views(messages@),
                self@ == old(self)@.with_durations(all.take(i as int)),
            decreases messages@.len() - i,
        {
            assert(all.take(i + 1).drop_last() =~= all.take(i as int));
            assert(all.take(i + 1).last() == messages@[i as int]@);
            self.take_duration(&messages[i]);
            i = i + 1;
        }
        assert(all.take(messages@.len() as int) =~= all);
    }

    /// Takes in the length that one probe found.
    pub fn take_duration(&mut self, message: &DurationMsg)
        ensures
            final(self)@ == old(self)@.with_duration(message@),
    {
        if message.scan_gen != self.scan_gen {
            return;
        }
        match find_entry(&self.entries, &message.path) {
            Some(i) => {
                let entry = &mut self.entries[i];
                entry.duration = message.duration;
                entry.duration_pending = false;
                assert(entry_views(self.entries@) =~= old(self)@.with_duration(message@).entries);
            },
            None => {},
        }
    }

    /// The entry in the selected row.
    pub fn selected_entry(&self) -> (r: Option<&Entry>)
        ensures
            match r {
                Some(e) => self@.selected_entry() == Some(e@),
                None => self@.selected_entry() is None,
            },
    {
        match self.table.selected {
            Some(i) => if i < self.entries.len() {
                Some(&self.entries[i])
            } else {
                None
            },
            None => None,
        }
    }

    /// A copy of the path in the selected row.
    fn selected_path(&self) -> (r: Option<UnixPath>)
        ensures
            path_view(r) == self@.selected_path(),
    {
        match self.selected_entry() {
            Some(e) => Some(e.path.clone()),
            None => None,
        }
    }

    /// Moves the selection by so many rows, as far as there are rows.
    pub fn move_selection(&mut self, delta: isize)
        ensures
            final(self)@ == old(self)@.move_selection(delta as int),
    {
        let len = self.entries.len();
        if len == 0 {
            return;
        }
        let from: usize = match self.table.selected {
            Some(i) => i,
            None => 0,
        };
        let last: usize = len - 1;
        let to: usize = if delta >= 0 {
            let rows: usize = delta as usize;
            if from >= last || rows > last - from {
                last
            } else {
                from + rows
            }
        } else {
            let back: usize = (-(delta + 1)) as usize;
            if from <= back {
                0
            } else {
                let moved: usize = from - back - 1;
                if moved > last {
                    last
                } else {
                    moved
                }
            }
        };
        self.table.select(Some(to));
    }

    /// Opens the selected entry.
    pub fn enter_selected(&mut self) -> (action: Action)
        ensures
            (final(self)@, action@) == old(self)@.enter_selected(),
    {
        let (path, is_dir) = match self.selected_entry() {
            Some(e) => (e.path.clone(), e.is_dir),
            None => {
                return Action::Nothing;
            },
        };
        if is_dir {
            self.cwd = path;
            Action::Rescan { select: None }
        } else {
            self.play_path(path)
        }
    }

    /// Goes to the parent directory, if there is one.
    pub fn go_up(&mut self) -> (action: Action)
        ensures
            (final(self)@, action@) == old(self)@.go_up(),
    {
        match self.cwd.parent() {
            Some(parent) => {
                let from = self.cwd.clone();
                self.cwd = parent;
                Action::Rescan { select: Some(from) }
            },
            None => Action::Nothing,
        }
    }

    /// Asks for a file to be opened, with the length that the listing knows.
    pub fn play_path(&mut self, path: UnixPath) -> (action: Action)
        ensures
            (final(self)@, action@) == old(self)@.play_path(path@),
    {
        if self.player.is_none() {
            self.status = Some("no audio output device".to_owned());
            return Action::Nothing;
        }
        let known_duration = match find_entry(&self.entries, &path) {
            Some(i) => self.entries[i].duration,
            None => None,
        };
        Action::Play { path, known_duration }
    }

    /// Takes in how the opening of a file went: the length that its decoder
    /// tells, or why it could not be opened.
    pub fn opened(
        &mut self,
        path: UnixPath,
        known_duration: Option<TimeSpan>,
        outcome: Result<Option<TimeSpan>, String>,
    )
        ensures
            final(self)@ == old(self)@.opened(
                path@,
                span_view(known_duration),
                outcome_view(outcome),
            ),
    {
        match &mut self.player {
            Some(player) => match outcome {
                Ok(source_duration) => {
                    player.play(path, known_duration, source_duration);
                    self.status = None;
                },
                Err(reason) => {
                    self.status = Some(
                        complaint("cannot play ", path.display().as_str(), reason.as_str()),
                    );
                },
            },
            None => {},
        }
    }

    /// What a seek asks of the sink.
    pub fn seek(&self, forward: bool, step: TimeSpan, sink: Option<SinkReport>) -> (action: Action)
        ensures
            action@ == self@.seek(forward, step@, sink),
    {
        match &self.player {
            Some(player) => match player.seek_by(sink, forward, step) {
                Some(target) => Action::Seek { target },
                None => Action::Nothing,
            },
            None => Action::Nothing,
        }
    }

    /// Takes in how a seek of the sink went, and shows why it failed.
    pub fn sought(&mut self, outcome: Result<(), String>)
        ensures
            final(self)@ == old(self)@.sought(unit_outcome_view(outcome)),
    {
        match outcome {
            Ok(_) => {},
            Err(reason) => {
                let mut status = "seek failed: ".to_owned();
                status.append(reason.as_str());
                self.status = Some(status);
            },
        }
    }

    /// Unloads the track.
    fn stop(&mut self) -> (action: Action)
        ensures
            (final(self)@, action@) == old(self)@.stop(),
    {
        match &mut self.player {
            Some(player) => {
                player.stop();
                Action::Stop
            },
            None => Action::Nothing,
        }
    }

    /// When a track ends, starts the next audio file in the current listing.
    pub fn auto_advance(&mut self, sink: Option<SinkReport>) -> (action: Action)
        ensures
            (final(self)@, action@) == old(self)@.auto_advance(sink),
    {
        let next: Option<usize> = match &self.player {
            Some(player) => {
                if !player.finished(sink) {
                    return Action::Nothing;
                }
                match &player.current {
                    Some(current) => match find_entry(&self.entries, current) {
                        Some(i) => next_file(&self.entries, i + 1),
                        None => None,
                    },
                    None => None,
                }
            },
            None => {
                return Action::Nothing;
            },
        };
        match next {
            Some(n) => {
                let path = self.entries[n].path.clone();
                match find_entry(&self.entries, &path) {
                    Some(i) => {
                        self.table.select(Some(i));
                    },
                    None => {},
                }
                self.play_path(path)
            },
            None => self.stop(),
        }
    }

    /// Carries out a command.
    pub fn obey(&mut self, command: Command, sink: Option<SinkReport>) -> (action: Action)
        ensures
            (final(self)@, action@) == old(self)@.obey(command, sink),
    {
        match command {
            Command::Ignore => Action::Nothing,
            Command::Quit => {
                self.quit = true;
                Action::Nothing
            },
            Command::Move { rows } => {
                self.move_selection(rows);
                Action::Nothing
            },
            Command::First => {
                if self.entries.len() > 0 {
                    self.table.select(Some(0));
                }
                Action::Nothing
            },
            Command::Last => {
                let len = self.entries.len();
                if len > 0 {
                    self.table.select(Some(len - 1));
                }
                Action::Nothing
            },
            Command::Open => self.enter_selected(),
            Command::GoUp => self.go_up(),
            Command::TogglePause => match &self.player {
                Some(player) => match player.toggle_pause(sink) {
                    Some(PauseOrder::Resume) => Action::Resume,
                    Some(PauseOrder::Pause) => Action::Pause,
                    None => Action::Nothing,
                },
                None => Action::Nothing,
            },
            Command::Stop => self.stop(),
            Command::Seek { forward, big } => {
                let step = if big {
                    TimeSpan::new(30, 0)
                } else {
                    TimeSpan::new(5, 0)
                };
                self.seek(forward, step, sink)
            },
            Command::Volume { up } => {
                if self.player.is_some() {
                    Action::AdjustVolume { up }
                } else {
                    Action::Nothing
                }
            },
            Command::ToggleHidden => {
                self.show_hidden = !self.show_hidden;
                Action::Rescan { select: self.selected_path() }
            },
            Command::Refresh => Action::Rescan { select: self.selected_path() },
        }
    }

    /// Answers a key.
    pub fn on_key(&mut self, key: KeyInput, sink: Option<SinkReport>) -> (action: Action)
        ensures
            (final(self)@, action@) == old(self)@.on_key(key, sink),
    {
        self.obey(command_of(key), sink)
    }
}

} // verus!
