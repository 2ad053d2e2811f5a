//! The models of the library's types keep all that the types hold.
use crate::app::{
    message_views, outcome_view, player_view, read_view, text_view, unit_outcome_view, Action,
    ActionView, App, DurationMsg,
};
use crate::listing::{
    entry_views, item_views, moment_view, path_views, span_view, text_views, DirItem, Entry,
};
use crate::path::UnixPath;
use crate::player::{path_view, Player};
use crate::screen::{progress_view, styled_views, Progress, StyledText};
use crate::time::{TimeSpan, Timestamp};
use vstd::prelude::*;

verus! {

/// A value that may be missing is missing in its model exactly where it is
/// missing, and is else that value.
pub proof fn law_missing_values(
    span: TimeSpan,
    moment: Timestamp,
    path: UnixPath,
    player: Player,
    text: String,
    progress: Progress,
)
    ensures
        span_view(Some(span)) == Some(span@),
        span_view(None) is None,
        moment_view(Some(moment)) == Some(moment@),
        moment_view(None) is None,
        path_view(Some(path)) == Some(path@),
        path_view(None) is None,
        player_view(Some(player)) == Some(player@),
        player_view(None) is None,
        text_view(Some(text)) == Some(text@),
        text_view(None) is None,
        progress_view(Some(progress)) == Some((progress.done@, progress.whole@)),
        progress_view(None) is None,
{
}

/// The model of a vector has the models of its elements, each in its place.
pub proof fn law_vectors(
    entries: Vec<Entry>,
    items: Vec<DirItem>,
    messages: Vec<DurationMsg>,
    paths: Vec<UnixPath>,
    texts: Vec<String>,
    pieces: Vec<StyledText>,
    i: int,
)
    ensures
        entry_views(entries@).len() == entries@.len(),
        0 <= i < entries@.len() ==> entry_views(entries@)[i] == entries@[i]@,
        item_views(items@).len() == items@.len(),
        0 <= i < items@.len() ==> item_views(items@)[i] == items@[i]@,
        message_views(messages@).len() == messages@.len(),
        0 <= i < messages@.len() ==> message_views(messages@)[i] == messages@[i]@,
        path_views(paths@).len() == paths@.len(),
        0 <= i < paths@.len() ==> path_views(paths@)[i] == paths@[i]@,
        text_views(texts@).len() == texts@.len(),
        0 <= i < texts@.len() ==> text_views(texts@)[i] == texts@[i]@,
        styled_views(pieces@).len() == pieces@.len(),
        0 <= i < pieces@.len() ==> styled_views(pieces@)[i] == (pieces@[i].text@, pieces@[i].tone),
{
}

/// The model of an entry, of an item, of a message and of a player has each of
/// their fields.
pub proof fn law_records(entry: Entry, item: DirItem, message: DurationMsg, player: Player)
    ensures
        entry@.name == entry.name@,
        entry@.path == entry.path@,
        entry@.is_dir == entry.is_dir,
        entry@.created == moment_view(entry.created),
        entry@.duration == span_view(entry.duration),
        entry@.duration_pending == entry.duration_pending,
        item@.file_name == item.file_name@,
        item@.path == item.path@,
        item@.is_dir == item.is_dir,
        item@.created == moment_view(item.created),
        item@.modified == moment_view(item.modified),
        message@.scan_gen == message.scan_gen,
        message@.path == message.path@,
        message@.duration == span_view(message.duration),
        player@.current == path_view(player.current),
        player@.total == span_view(player.total),
{
}

/// The model of the application has each of its fields.
pub proof fn law_application(app: App)
    ensures
        app@.cwd == app.cwd@,
        app@.entries == entry_views(app.entries@),
        app@.table.offset == app.table.offset,
        app@.table.selected == app.table.selected,
        app@.show_hidden == app.show_hidden,
        app@.scan_gen == app.scan_gen,
        app@.player == player_view(app.player),
        app@.status == text_view(app.status),
        app@.quit == app.quit,
{
}

/// The model of an action is the same action with the models of its fields.
pub proof fn law_actions(
    path: UnixPath,
    select: Option<UnixPath>,
    known_duration: Option<TimeSpan>,
    target: TimeSpan,
    up: bool,
)
    ensures
        Action::Nothing@ == ActionView::Nothing,
        (Action::Rescan { select })@ == (ActionView::Rescan { select: path_view(select) }),
        (Action::Play { path, known_duration })@ == (ActionView::Play {
            path: path@,
            known_duration: span_view(known_duration),
        }),
        Action::Resume@ == ActionView::Resume,
        Action::Pause@ == ActionView::Pause,
        Action::Stop@ == ActionView::Stop,
        (Action::Seek { target })@ == (ActionView::Seek { target: target@ }),
        (Action::AdjustVolume { up })@ == (ActionView::AdjustVolume { up }),
{
}

/// The model of an outcome is a success or a failure where the outcome is, with
/// all that it brought.
pub proof fn law_outcomes(items: Vec<DirItem>, length: Option<TimeSpan>, reason: String)
    ensures
        read_view(Ok(items)) == Ok::<_, Seq<char>>(item_views(items@)),
        read_view(Err(reason)) == Err::<Seq<crate::listing::DirItemView>, _>(reason@),
        outcome_view(Ok(length)) == Ok::<_, Seq<char>>(span_view(length)),
        outcome_view(Err(reason)) == Err::<Option<nat>, _>(reason@),
        unit_outcome_view(Ok(())) == Ok::<(), Seq<char>>(()),
        unit_outcome_view(Err(reason)) == Err::<(), _>(reason@),
{
}

} // verus!
