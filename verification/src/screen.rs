//! What the application shows: the texts of the screen and how they are toned.
use crate::app::{App, AppView};
use crate::listing::{Entry, EntryView};
use crate::path::{file_name_of, same_path, UnixPath};
use crate::player::SinkReport;
use crate::text::{decimal, show_bytes, shown_text, push_decimal};
use crate::time::{
    duration_text, fmt_created, fmt_duration, is_zoned_minute, TimeSpan, NANOS_PER_SEC,
};
use vstd::prelude::*;

verus! {

/// How a row of the table is set off.
#[derive(Clone, Copy, PartialEq, Eq, Debug)]
pub enum RowStyle {
    /// The track that is playing.
    Playing,
    /// A directory.
    Directory,
    /// Any other file.
    Plain,
}

/// How a piece of text is set off.
#[derive(Clone, Copy, PartialEq, Eq, Debug)]
pub enum Tone {
    /// What is playing.
    Bright,
    /// What stands in the background.
    Dim,
    /// What went wrong.
    Alarm,
}

/// A row of the table.
pub struct TableRow {
    pub name: String,
    pub duration: String,
    pub created: String,
    pub style: RowStyle,
}

/// A piece of text with its tone.
pub struct StyledText {
    pub text: String,
    pub tone: Tone,
}

impl View for StyledText {
    type V = (Seq<char>, Tone);

    open spec fn view(&self) -> (Seq<char>, Tone) {
        (self.text@, self.tone)
    }
}

/// What the pieces of a vector hold.
pub open spec fn styled_views(v: Seq<StyledText>) -> Seq<(Seq<char>, Tone)> {
    Seq::new(v.len(), |i: int| v[i]@)
}

/// How much of a track has been played.
#[derive(Clone, Copy)]
pub struct Progress {
    pub done: TimeSpan,
    pub whole: TimeSpan,
}

/// The lengths of a progress that may be unknown.
pub open spec fn progress_view(p: Option<Progress>) -> Option<(nat, nat)> {
    match p {
        Some(p) => Some((p.done@, p.whole@)),
        None => None,
    }
}

/// All that is shown.
pub struct Screen {
    pub title: String,
    pub rows: Vec<TableRow>,
    pub info: Vec<StyledText>,
    pub gauge_label: String,
    pub progress: Option<Progress>,
    pub help: StyledText,
}

/// The path of the track that is loaded.
pub open spec fn current_track(app: AppView) -> Option<Seq<u8>> {
    match app.player {
        Some(p) => p.current,
        None => None,
    }
}

/// Tells whether an entry is the track that is loaded.
pub open spec fn is_playing(app: AppView, e: EntryView) -> bool {
    match current_track(app) {
        Some(current) => same_path(current, e.path),
        None => false,
    }
}

/// The name of an entry: a directory with a slash behind it, the loaded track
/// with a mark before it.
pub open spec fn name_cell(e: EntryView, playing: bool) -> Seq<char> {
    if e.is_dir {
        e.name + "/"@
    } else if playing {
        "▶ "@ + e.name
    } else {
        e.name
    }
}

/// The length of an entry: none for a directory, an ellipsis while it is looked
/// for, a question mark where it was not found.
pub open spec fn duration_cell(e: EntryView) -> Seq<char> {
    if e.is_dir {
        ""@
    } else {
        match e.duration {
            Some(d) => duration_text(d),
            None => if e.duration_pending {
                "…"@
            } else {
                "?"@
            },
        }
    }
}

/// How the row of an entry is set off.
pub open spec fn row_style(e: EntryView, playing: bool) -> RowStyle {
    if playing {
        RowStyle::Playing
    } else if e.is_dir {
        RowStyle::Directory
    } else {
        RowStyle::Plain
    }
}

/// Tells whether a row shows an entry.
pub open spec fn row_shows(row: TableRow, e: EntryView, playing: bool) -> bool {
    &&& row.name@ == name_cell(e, playing)
    &&& row.duration@ == duration_cell(e)
    &&& match e.created {
        Some(t) => is_zoned_minute(row.created@, t / (NANOS_PER_SEC as int)),
        None => row.created@ == "-"@,
    }
    &&& row.style == row_style(e, playing)
}

/// The title of the table.
pub open spec fn title_text(app: AppView) -> Seq<char> {
    " "@ + shown_text(app.cwd) + " "@
}

/// A number, filled up with blanks to three places.
pub open spec fn three_places(n: nat) -> Seq<char> {
    if n < 10 {
        "  "@ + decimal(n)
    } else if n < 100 {
        " "@ + decimal(n)
    } else {
        decimal(n)
    }
}

/// The volume in percent.
pub open spec fn volume_text(percent: nat) -> Seq<char> {
    "   vol "@ + three_places(percent) + "%"@
}

/// How far the sink has played.
pub open spec fn sink_position(sink: Option<SinkReport>) -> nat {
    match sink {
        Some(s) => s.position@,
        None => 0,
    }
}

/// The file name of the loaded track, as text.
pub open spec fn track_name(path: Seq<u8>) -> Seq<char> {
    match file_name_of(path) {
        Some(name) => shown_text(name),
        None => ""@,
    }
}

/// The length of the loaded track, where there is one that is known and not
/// empty.
pub open spec fn known_total(app: AppView) -> Option<nat> {
    match app.player {
        Some(p) => match (p.current, p.total) {
            (Some(_), Some(t)) => if t != 0 {
                Some(t)
            } else {
                None
            },
            _ => None,
        },
        None => None,
    }
}

/// The line over the gauge: the loaded track, or the status, and the volume
/// where there is a player.
pub open spec fn info_line(
    app: AppView,
    sink: Option<SinkReport>,
    volume_percent: nat,
) -> Seq<(Seq<char>, Tone)> {
    match current_track(app) {
        Some(current) => {
            let mark = if sink matches Some(s) && s.paused {
                "⏸"@
            } else {
                "▶"@
            };
            seq![
                (" "@ + mark + " "@ + track_name(current), Tone::Bright),
                (volume_text(volume_percent), Tone::Dim),
            ]
        },
        None => {
            let message = match app.status {
                Some(m) => m,
                None => "nothing playing"@,
            };
            let volume = if app.player is Some {
                volume_text(volume_percent)
            } else {
                ""@
            };
            seq![(" "@ + message, Tone::Dim), (volume, Tone::Dim)]
        },
    }
}

/// The label of the gauge: the position, and the length where it is known.
pub open spec fn gauge_text(app: AppView, sink: Option<SinkReport>) -> Seq<char> {
    if current_track(app) is None {
        ""@
    } else {
        match known_total(app) {
            Some(t) => duration_text(sink_position(sink)) + " / "@ + duration_text(t),
            None => duration_text(sink_position(sink)),
        }
    }
}

/// How much has been played of a track whose length is known: never more than
/// all of it.
pub open spec fn track_progress(app: AppView, sink: Option<SinkReport>) -> Option<(nat, nat)> {
    match known_total(app) {
        Some(t) => {
            let position = sink_position(sink);
            Some(
                (
                    if position > t {
                        t
                    } else {
                        position
                    },
                    t,
                ),
            )
        },
        None => None,
    }
}

/// The help line.
pub const HELP: &'static str =
    " ↵ open/play  ⌫ up  ␣ pause  ←/→ ±5s  [/] ±30s  s stop  +/- vol  . hidden  r refresh  q quit";

/// The last line: the keys, or what went wrong while a track is loaded.
pub open spec fn help_line(app: AppView) -> (Seq<char>, Tone) {
    match (app.status, current_track(app)) {
        (Some(m), Some(_)) => (" "@ + m, Tone::Alarm),
        _ => (HELP@, Tone::Dim),
    }
}

/// The text `a`, then the text `b`.
fn joined(a: &str, b: &str) -> (r: String)
    ensures
        r@ == a@ + b@,
{
    let mut r = a.to_owned();
    r.append(b);
    r
}

/// Writes the volume.
fn volume_label(percent: u64) -> (r: String)
    ensures
        r@ == volume_text(percent as nat),
{
    let mut r = "   vol ".to_owned();
    if percent < 10 {
        r.append("  ");
    } else if percent < 100 {
        r.append(" ");
    }
    push_decimal(&mut r, percent);
    r.append("%");
    assert(r@ =~= volume_text(percent as nat));
    r
}

/// The row of an entry.
fn table_row(e: &Entry, current: Option<&UnixPath>) -> (r: TableRow)
    ensures
        row_shows(
            r,
            e@,
            match current {
                Some(c) => same_path(c@, e@.path),
                None => false,
            },
        ),
{
    let playing: bool = match current {
        Some(c) => c.same_as(&e.path),
        None => false,
    };
    let name = if e.is_dir {
        joined(e.name.as_str(), "/")
    } else if playing {
        joined("▶ ", e.name.as_str())
    } else {
        e.name.clone()
    };
    let duration = if e.is_dir {
        "".to_owned()
    } else {
        match e.duration {
            Some(d) => fmt_duration(d),
            None => if e.duration_pending {
                "…".to_owned()
            } else {
                "?".to_owned()
            },
        }
    };
    let style = if playing {
        RowStyle::Playing
    } else if e.is_dir {
        RowStyle::Directory
    } else {
        RowStyle::Plain
    };
    TableRow { name, duration, created: fmt_created(e.created), style }
}

/// Composes the screen from the state of the application, the report of the
/// sink and the volume.
pub fn draw(app: &App, sink: Option<SinkReport>, volume_percent: u64) -> (r: Screen)
    ensures
        r.title@ == title_text(app@),
        r.rows@.len() == app@.entries.len(),
        forall|i: int|
            0 <= i < r.rows@.len() ==> row_shows(
                #[trigger] r.rows@[i],
                app@.entries[i],
                is_playing(app@, app@.entries[i]),
            ),
        styled_views(r.info@) == info_line(app@, sink, volume_percent as nat),
        r.gauge_label@ == gauge_text(app@, sink),
        progress_view(r.progress) == track_progress(app@, sink),
        r.help@ == help_line(app@),
{
    let mut title = " ".to_owned();
    title.append(app.cwd.display().as_str());
    title.append(" ");

    let current: Option<&UnixPath> = match &app.player {
        Some(p) => p.current.as_ref(),
        None => None,
    };
    let ghost playing_path: Option<Seq<u8>> = match current {
        Some(c) => Some(c@),
        None => None,
    };
    assert(playing_path == current_track(app@));
    let mut rows: Vec<TableRow> = Vec::new();
    let mut i: usize = 0;
    while i < app.entries.len()
        invariant
            i <= app.entries@.len(),
            rows@.len() == i,
            match current {
                Some(c) => current_track(app@) == Some(c@),
                None => current_track(app@) is None,
            },
            forall|j: int|
                0 <= j < i ==> row_shows(
                    #[trigger] rows@[j],
                    app@.entries[j],
                    is_playing(app@, app@.entries[j]),
                ),
        decreases app.entries@.len() - i,
    {
        let row = table_row(&app.entries[i], current);
        assert(app@.entries[i as int] == app.entries@[i as int]@);
        rows.push(row);
        i = i + 1;
    }

    let mut info: Vec<StyledText> = Vec::new();
    let mut gauge_label = String::new();
    let mut progress: Option<Progress> = None;
    match (&app.player, current) {
        (Some(p), Some(c)) => {
            let position = p.position(sink);
            let mut line = " ".to_owned();
            if p.is_paused(sink) {
                line.append("⏸");
            } else {
                line.append("▶");
            }
            line.append(" ");
            match c.file_name() {
                Some(name) => {
                    line.append(show_bytes(name.as_slice()).as_str());
                },
                None => {
                    line.append("");
                },
            }
            gauge_label = fmt_duration(position);
            match p.total {
                Some(total) => {
                    if !total.is_zero() {
                        gauge_label.append(" / ");
                        gauge_label.append(fmt_duration(total).as_str());
                        let done = if position.longer_than(&total) {
                            total
                        } else {
                            position
                        };
                        progress = Some(Progress { done, whole: total });
                    }
                },
                None => {},
            }
            info.push(StyledText { text: line, tone: Tone::Bright });
            info.push(StyledText { text: volume_label(volume_percent), tone: Tone::Dim });
        },
        _ => {
            let message = match &app.status {
                Some(m) => joined(" ", m.as_str()),
                None => joined(" ", "nothing playing"),
            };
            let volume = if app.player.is_some() {
                volume_label(volume_percent)
            } else {
                "".to_owned()
            };
            gauge_label = "".to_owned();
            info.push(StyledText { text: message, tone: Tone::Dim });
            info.push(StyledText { text: volume, tone: Tone::Dim });
        },
    }
    assert(styled_views(info@) =~= info_line(app@, sink, volume_percent as nat));

    let help = match (&app.status, current) {
        (Some(m), Some(_)) => StyledText { text: joined(" ", m.as_str()), tone: Tone::Alarm },
        _ => StyledText { text: HELP.to_owned(), tone: Tone::Dim },
    };
    Screen { title, rows, info, gauge_label, progress, help }
}

} // verus!
