//! What a scan of a directory shows, and what the probes of its files bring.
use crate::app::{table_select, unread_app, AppView, DurationMsgView, TableState};
use crate::laws::{law_durations_change_only_lengths, paths_differ, same_but_length};
use crate::listing::{
    find_path, is_listing_of, law_files_are_those_listed, law_find_path_is_first,
    law_listing_shows_items, DirItemView, EntryView,
};
use crate::path::same_path;
use crate::text::shown_text;
use vstd::prelude::*;

verus! {

/// Row `i` has the path, and no row above it has.
pub open spec fn is_first_with(rows: Seq<EntryView>, path: Seq<u8>, i: int) -> bool {
    &&& 0 <= i < rows.len()
    &&& same_path(rows[i].path, path)
    &&& forall|j: int| 0 <= j < i ==> !same_path(#[trigger] rows[j].path, path)
}

/// No row has the path.
pub open spec fn is_missing(rows: Seq<EntryView>, path: Seq<u8>) -> bool {
    forall|j: int| 0 <= j < rows.len() ==> !same_path(#[trigger] rows[j].path, path)
}

/// A search finds the first row with the path, wherever it stands, and nothing
/// where no row has it.
pub proof fn law_search(rows: Seq<EntryView>, path: Seq<u8>, i: int)
    ensures
        find_path(rows, path, 0) == Some(i) <==> is_first_with(rows, path, i),
        find_path(rows, path, 0) is None <==> is_missing(rows, path),
{
    law_find_path_is_first(rows, path, 0);
    if let Some(k) = find_path(rows, path, 0) {
        assert(same_path(rows[k].path, path));
        if is_first_with(rows, path, i) && k != i {
            assert(same_path(rows[i].path, path));
        }
    } else if is_first_with(rows, path, i) {
        assert(same_path(rows[i].path, path));
    }
}

/// A scan that could read the directory shows the rows of its items. It selects
/// the first row with the path that was to be kept, else the top row, and none
/// where there are no rows; then the table is shown from its top. It has the
/// next number, asks for the length of each file that is shown, and changes
/// nothing else.
pub proof fn law_scan(
    before: AppView,
    items: Seq<DirItemView>,
    select: Option<Seq<u8>>,
    after: AppView,
    probes: Seq<Seq<u8>>,
    i: int,
) -> (from: Seq<int>)
    requires
        before.rescans_to(Ok(items), select, after, probes),
    ensures
        is_listing_of(before.show_hidden, items, after.entries, from),
        after.entries.len() == 0 ==> after.table.selected is None && after.table.offset == 0,
        after.entries.len() > 0 ==> after.table.offset == before.table.offset,
        after.entries.len() > 0 && select is None ==> after.table.selected == Some(0usize),
        select matches Some(path) && is_first_with(after.entries, path, i)
            ==> after.table.selected == Some(i as usize),
        select matches Some(path) && is_missing(after.entries, path) && after.entries.len() > 0
            ==> after.table.selected == Some(0usize),
        probes == after.entries.filter(|e: EntryView| !e.is_dir).map_values(
            |e: EntryView| e.path,
        ),
        after.cwd == before.cwd,
        after.show_hidden == before.show_hidden,
        after.scan_gen == before.scan_gen + 1,
        after.player == before.player,
        after.status == before.status,
        after.quit == before.quit,
{
    if let Some(path) = select {
        law_search(after.entries, path, i);
    }
    law_files_are_those_listed(after.entries);
    law_listing_shows_items(before.show_hidden, items, after.entries)
}

/// A scan that could not read the directory leaves no rows and says which
/// directory it was and why. It has the next number, asks for no lengths, and
/// changes nothing else.
pub proof fn law_failed_scan(
    before: AppView,
    reason: Seq<char>,
    select: Option<Seq<u8>>,
    after: AppView,
    probes: Seq<Seq<u8>>,
)
    requires
        before.rescans_to(Err(reason), select, after, probes),
    ensures
        after.entries.len() == 0,
        after.status == Some("cannot read "@ + shown_text(before.cwd) + ": "@ + reason),
        after.scan_gen == before.scan_gen + 1,
        probes.len() == 0,
        after.cwd == before.cwd,
        after.table == before.table,
        after.show_hidden == before.show_hidden,
        after.player == before.player,
        after.quit == before.quit,
{
}

/// The application starts in the directory that it was given, hides the hidden
/// entries, has nothing loaded, and has a player exactly where there is an audio
/// output. Its first scan has the number one, and unless that failed there is
/// no message.
pub proof fn law_start(
    cwd: Seq<u8>,
    has_audio: bool,
    read: Result<Seq<DirItemView>, Seq<char>>,
    after: AppView,
    probes: Seq<Seq<u8>>,
)
    requires
        unread_app(cwd, has_audio).rescans_to(read, None, after, probes),
    ensures
        after.cwd == cwd,
        !after.show_hidden,
        !after.quit,
        after.scan_gen == 1,
        after.player is Some <==> has_audio,
        after.player matches Some(p) ==> p.current is None && p.total is None,
        read is Ok ==> after.status is None,
        after.table.offset == 0,
        after.table.selected == if after.entries.len() == 0 {
            None
        } else {
            Some(0usize)
        },
{
}

/// The length that a probe found goes to the first row with its path, if the
/// current scan asked for it, and that row no longer waits. Every other row, and
/// all else, stays as it is.
pub proof fn law_duration_goes_to_its_row(app: AppView, message: DurationMsgView, i: int)
    requires
        0 <= i < app.entries.len(),
    ensures
        ({
            let after = app.with_duration(message);
            let row = after.entries[i];
            &&& after == (AppView { entries: after.entries, ..app })
            &&& after.entries.len() == app.entries.len()
            &&& if message.scan_gen == app.scan_gen && is_first_with(app.entries, message.path, i) {
                &&& row.duration == message.duration
                &&& !row.duration_pending
                &&& same_but_length(row, app.entries[i])
            } else {
                row == app.entries[i]
            }
        }),
{
    law_search(app.entries, message.path, i);
    if let Some(k) = find_path(app.entries, message.path, 0) {
        law_find_path_is_first(app.entries, message.path, 0);
    }
}

/// Lengths that come in two batches have the effect of one batch with all of
/// them. An empty batch changes nothing.
pub proof fn law_batches_add_up(
    app: AppView,
    a: Seq<DurationMsgView>,
    b: Seq<DurationMsgView>,
    message: DurationMsgView,
)
    ensures
        app.with_durations(a + b) == app.with_durations(a).with_durations(b),
        app.with_durations(Seq::empty()) == app,
        app.with_durations(seq![message]) == app.with_duration(message),
    decreases b.len(),
{
    assert(seq![message].drop_last() =~= Seq::<DurationMsgView>::empty());
    assert(app.with_durations(seq![message].drop_last()) == app);
    if b.len() == 0 {
        assert(a + b =~= a);
    } else {
        law_batches_add_up(app, a, b.drop_last(), message);
        assert((a + b).drop_last() =~= a + b.drop_last());
    }
}

/// The current scan answers for row `i` by the message.
pub open spec fn answers_row(app: AppView, message: DurationMsgView, i: int) -> bool {
    message.scan_gen == app.scan_gen && same_path(app.entries[i].path, message.path)
}

proof fn lemma_next_duration(app: AppView, messages: Seq<DurationMsgView>, i: int)
    requires
        paths_differ(app),
        0 <= i < app.entries.len(),
        messages.len() > 0,
    ensures
        ({
            let before = app.with_durations(messages.drop_last()).entries[i];
            let row = app.with_durations(messages).entries[i];
            if answers_row(app, messages.last(), i) {
                row.duration == messages.last().duration && !row.duration_pending
            } else {
                row == before
            }
        }),
{
    let middle = app.with_durations(messages.drop_last());
    let message = messages.last();
    law_durations_change_only_lengths(app, messages.drop_last());
    law_duration_goes_to_its_row(middle, message, i);
    assert(same_but_length(middle.entries[i], app.entries[i]));
    if answers_row(app, message, i) {
        assert forall|j: int| 0 <= j < i implies !same_path(
            #[trigger] middle.entries[j].path,
            message.path,
        ) by {
            assert(same_but_length(middle.entries[j], app.entries[j]));
            assert(!same_path(app.entries[j].path, app.entries[i].path));
        }
        assert(is_first_with(middle.entries, message.path, i));
    }
}

/// A row that the current scan answered has the length of the last answer for
/// it, whatever the other answers of the batch are.
pub proof fn law_last_answer_counts(
    app: AppView,
    messages: Seq<DurationMsgView>,
    i: int,
    k: int,
)
    requires
        paths_differ(app),
        0 <= i < app.entries.len(),
        0 <= k < messages.len(),
        messages[k].scan_gen == app.scan_gen,
        same_path(app.entries[i].path, messages[k].path),
        forall|l: int|
            k < l < messages.len() && (#[trigger] messages[l]).scan_gen == app.scan_gen
                ==> !same_path(app.entries[i].path, messages[l].path),
    ensures
        app.with_durations(messages).entries[i].duration == messages[k].duration,
        !app.with_durations(messages).entries[i].duration_pending,
    decreases messages.len(),
{
    lemma_next_duration(app, messages, i);
    let rest = messages.drop_last();
    let n = messages.len() - 1;
    if k < n {
        assert(rest[k] == messages[k]);
        assert(messages[n] == messages.last());
        assert forall|l: int|
            k < l < rest.len() && (#[trigger] rest[l]).scan_gen == app.scan_gen implies !same_path(
            app.entries[i].path,
            rest[l].path,
        ) by {
            assert(rest[l] == messages[l]);
        }
        law_last_answer_counts(app, rest, i, k);
    }
}

/// A row that the current scan did not answer stays as it is.
pub proof fn law_unanswered_row_is_kept(app: AppView, messages: Seq<DurationMsgView>, i: int)
    requires
        paths_differ(app),
        0 <= i < app.entries.len(),
        forall|l: int|
            0 <= l < messages.len() && (#[trigger] messages[l]).scan_gen == app.scan_gen
                ==> !same_path(app.entries[i].path, messages[l].path),
    ensures
        app.with_durations(messages).entries[i] == app.entries[i],
    decreases messages.len(),
{
    if messages.len() > 0 {
        lemma_next_duration(app, messages, i);
        let rest = messages.drop_last();
        assert(messages[messages.len() - 1] == messages.last());
        assert forall|l: int|
            0 <= l < rest.len() && (#[trigger] rest[l]).scan_gen == app.scan_gen implies !same_path(
            app.entries[i].path,
            rest[l].path,
        ) by {
            assert(rest[l] == messages[l]);
        }
        law_unanswered_row_is_kept(app, rest, i);
    }
}

/// The length that is known of a path is that of the first row with the path,
/// and unknown where no row has it.
pub proof fn law_known_length(app: AppView, path: Seq<u8>, i: int)
    ensures
        is_first_with(app.entries, path, i) ==> app.known_duration(path)
            == app.entries[i].duration,
        is_missing(app.entries, path) ==> app.known_duration(path) is None,
{
    law_search(app.entries, path, i);
}

/// Selecting a row, or none, selects just that; without a selection the table is
/// shown from its top, and else from where it was.
pub proof fn law_table_selection(table: TableState, index: Option<usize>)
    ensures
        table_select(table, index).selected == index,
        index is Some ==> table_select(table, index).offset == table.offset,
        index is None ==> table_select(table, index).offset == 0,
{
}

} // verus!
