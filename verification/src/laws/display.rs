//! What stands on the screen.
use crate::app::AppView;
use crate::listing::EntryView;
use crate::path::{file_name_of, same_path};
use crate::player::{PlayerView, SinkReport};
use crate::screen::{
    gauge_text, help_line, info_line, is_playing, row_shows, sink_position, title_text,
    track_progress, volume_text, RowStyle, TableRow, Tone, HELP,
};
use crate::text::{decimal, lemma_decimal_len, shown_text};
use crate::time::{duration_text, is_zoned_minute};
use vstd::prelude::*;

verus! {

/// The row of a directory has its name with a slash behind it and no length. The
/// row of a file has its name, with a mark before it where the file is the
/// loaded track, and its length, an ellipsis while that is looked for, or a
/// question mark where it was not found. Either has its moment or a dash, and is
/// set off by whether it is loaded and else by its kind.
pub proof fn law_row(row: TableRow, e: EntryView, playing: bool)
    requires
        row_shows(row, e, playing),
    ensures
        e.is_dir ==> row.name@ == e.name.push('/') && row.duration@.len() == 0,
        !e.is_dir && !playing ==> row.name@ == e.name,
        !e.is_dir && playing ==> row.name@ == seq!['▶', ' '] + e.name,
        !e.is_dir && e.duration is Some ==> row.duration@ == duration_text(e.duration->0),
        !e.is_dir && e.duration is None && e.duration_pending ==> row.duration@ == seq!['…'],
        !e.is_dir && e.duration is None && !e.duration_pending ==> row.duration@ == seq!['?'],
        e.created matches Some(t) ==> is_zoned_minute(row.created@, t / 1_000_000_000),
        e.created is None ==> row.created@ == seq!['-'],
        playing ==> row.style == RowStyle::Playing,
        !playing && e.is_dir ==> row.style == RowStyle::Directory,
        !playing && !e.is_dir ==> row.style == RowStyle::Plain,
{
    reveal_strlit("");
    reveal_strlit("/");
    reveal_strlit("▶ ");
    reveal_strlit("…");
    reveal_strlit("?");
    reveal_strlit("-");
    assert(e.name + "/"@ =~= e.name.push('/'));
    assert("▶ "@ + e.name =~= seq!['▶', ' '] + e.name);
    assert("…"@ =~= seq!['…']);
    assert("?"@ =~= seq!['?']);
    assert("-"@ =~= seq!['-']);
}

/// An entry is marked exactly where it has the path of the loaded track.
pub proof fn law_marked_entry(app: AppView, e: EntryView, player: PlayerView, current: Seq<u8>)
    ensures
        app.player is None ==> !is_playing(app, e),
        app.player == Some(player) && player.current is None ==> !is_playing(app, e),
        app.player == Some(player) && player.current == Some(current) ==> (is_playing(app, e)
            <==> same_path(current, e.path)),
{
}

/// The title is the working directory between blanks.
pub proof fn law_title(app: AppView)
    ensures
        title_text(app) == seq![' '] + shown_text(app.cwd) + seq![' '],
{
    reveal_strlit(" ");
    assert(" "@ =~= seq![' ']);
}

/// The volume: the word, the number in at least three places, blanks before it,
/// and a percent sign.
pub open spec fn shows_volume(text: Seq<char>, percent: nat) -> bool {
    let n = text.len() as int;
    let digits = decimal(percent);
    let first = n - 1 - digits.len();
    &&& text.take(7) == seq![' ', ' ', ' ', 'v', 'o', 'l', ' ']
    &&& text.last() == '%'
    &&& n == 8 + (if digits.len() < 3 {
        3
    } else {
        digits.len()
    })
    &&& text.subrange(first, n - 1) == digits
    &&& forall|i: int| 7 <= i < first ==> text[i] == ' '
}

proof fn lemma_volume(percent: nat)
    ensures
        shows_volume(volume_text(percent), percent),
{
    reveal_strlit("   vol ");
    reveal_strlit("%");
    reveal_strlit(" ");
    reveal_strlit("  ");
    let text = volume_text(percent);
    let n = text.len() as int;
    let digits = decimal(percent);
    lemma_decimal_len(percent);
    lemma_decimal_len(percent / 10);
    lemma_decimal_len(percent / 100);
    assert(percent / 10 / 10 == percent / 100);
    assert(text.take(7) =~= seq![' ', ' ', ' ', 'v', 'o', 'l', ' ']);
    assert(text.subrange(n - 1 - digits.len(), n - 1) =~= digits);
}

/// While a track is loaded the first line has a mark, which tells whether the
/// sink is paused, the file name of the track, if it has one, and the volume.
pub proof fn law_info_of_track(
    app: AppView,
    sink: Option<SinkReport>,
    percent: nat,
    current: Seq<u8>,
)
    requires
        app.player is Some,
        app.player->0.current == Some(current),
    ensures
        ({
            let info = info_line(app, sink, percent);
            let mark = if sink is Some && sink->0.paused {
                '⏸'
            } else {
                '▶'
            };
            &&& info.len() == 2
            &&& info[0].0.take(3) == seq![' ', mark, ' ']
            &&& file_name_of(current) is Some ==> info[0].0.skip(3) == shown_text(
                file_name_of(current)->0,
            )
            &&& file_name_of(current) is None ==> info[0].0.len() == 3
            &&& info[0].1 == Tone::Bright
            &&& shows_volume(info[1].0, percent)
            &&& info[1].1 == Tone::Dim
        }),
{
    reveal_strlit("");
    reveal_strlit(" ");
    reveal_strlit("⏸");
    reveal_strlit("▶");
    lemma_volume(percent);
    let info = info_line(app, sink, percent);
    let mark = if sink is Some && sink->0.paused {
        '⏸'
    } else {
        '▶'
    };
    assert(info[0].0.take(3) =~= seq![' ', mark, ' ']);
    if let Some(name) = file_name_of(current) {
        assert(info[0].0.skip(3) =~= shown_text(name));
    }
}

/// While no track is loaded the first line has the message, if there is one, or
/// says that nothing is playing, and the volume where there is a player.
pub proof fn law_info_without_track(app: AppView, sink: Option<SinkReport>, percent: nat)
    requires
        app.player is None || app.player->0.current is None,
    ensures
        ({
            let info = info_line(app, sink, percent);
            &&& info.len() == 2
            &&& app.status is Some ==> info[0].0 == seq![' '] + app.status->0
            &&& app.status is None ==> info[0].0 == " nothing playing"@
            &&& info[0].1 == Tone::Dim
            &&& app.player is Some ==> shows_volume(info[1].0, percent)
            &&& app.player is None ==> info[1].0.len() == 0
            &&& info[1].1 == Tone::Dim
        }),
{
    reveal_strlit("");
    reveal_strlit(" ");
    reveal_strlit("nothing playing");
    reveal_strlit(" nothing playing");
    lemma_volume(percent);
    let info = info_line(app, sink, percent);
    if app.status is None {
        assert(info[0].0 =~= " nothing playing"@);
    } else {
        assert(info[0].0 =~= seq![' '] + app.status->0);
    }
}

/// The place of the sink, or the start where there is none.
pub proof fn law_position(sink: SinkReport)
    ensures
        sink_position(Some(sink)) == sink.position@,
        sink_position(None) == 0,
{
}

/// The gauge of a loaded track tells the position of the sink, and behind a slash
/// the length where it is known and not nothing; then it is filled by the share
/// that the position is of the length, at most wholly. Else it is not filled,
/// and without a track it tells nothing.
pub proof fn law_gauge(app: AppView, player: PlayerView, sink: SinkReport, total: nat)
    ensures
        app.player is None ==> gauge_text(app, Some(sink)).len() == 0 && track_progress(
            app,
            Some(sink),
        ) is None,
        app.player == Some(player) && player.current is None ==> gauge_text(app, Some(sink)).len()
            == 0 && track_progress(app, Some(sink)) is None,
        app.player == Some(player) && player.current is Some && (player.total is None
            || player.total == Some(0nat)) ==> gauge_text(app, Some(sink)) == duration_text(
            sink.position@,
        ) && gauge_text(app, None) == duration_text(0) && track_progress(app, Some(sink)) is None
            && track_progress(app, None) is None,
        app.player == Some(player) && player.current is Some && player.total == Some(total) && total
            > 0 ==> {
            &&& gauge_text(app, Some(sink)) == duration_text(sink.position@) + seq![' ', '/', ' ']
                + duration_text(total)
            &&& gauge_text(app, None) == duration_text(0) + seq![' ', '/', ' '] + duration_text(
                total,
            )
            &&& sink.position@ <= total ==> track_progress(app, Some(sink)) == Some(
                (sink.position@, total),
            )
            &&& sink.position@ >= total ==> track_progress(app, Some(sink)) == Some((total, total))
            &&& track_progress(app, None) == Some((0nat, total))
        },
{
    reveal_strlit("");
    reveal_strlit(" / ");
    assert(" / "@ =~= seq![' ', '/', ' ']);
}

/// The last line has the message while a track is loaded and there is one, and
/// else the keys.
pub proof fn law_help(app: AppView, player: PlayerView)
    ensures
        app.status is Some && app.player == Some(player) && player.current is Some ==> help_line(
            app,
        ) == (seq![' '] + app.status->0, Tone::Alarm),
        app.status is None || app.player is None || (app.player == Some(player) && player.current
            is None) ==> help_line(app) == (HELP@, Tone::Dim),
        HELP@
            == " ↵ open/play  ⌫ up  ␣ pause  ←/→ ±5s  [/] ±30s  s stop  +/- vol  . hidden  r refresh  q quit"@,
{
    reveal_strlit(" ");
    if app.status is Some {
        assert(" "@ + app.status->0 =~= seq![' '] + app.status->0);
    }
}

} // verus!
