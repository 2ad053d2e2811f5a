//! What holds of the application as a whole.
use crate::app::{ActionView, AppView, Command, DurationMsgView, Key, KeyInput};
use crate::listing::{
    by_name, entry_before, entry_for, file_paths, find_file, find_path, in_order, is_hidden,
    is_listed, is_stable_sort, law_find_file_is_first, law_find_path_is_first,
    law_listing_is_permutation, law_listing_is_unique, listed_entries, name_keyed, rank_class,
    DirItemView, EntryView, Keyed,
};
use crate::path::{
    components, is_audio_path, is_item_name, joined, law_joining_adds_component,
    law_parent_drops_last_component, parent_of, same_path, SLASH,
};
use crate::player::{idle_player, PlayerView, SinkReport};
use crate::screen::{current_track, help_line, info_line, known_total, track_progress, Tone};
use crate::text::{caseless, shown_text, text_before};
use vstd::prelude::*;

pub mod commands;
pub mod display;
pub mod scans;
pub mod views;

verus! {

/// The selection, if there is one, is a row of the listing.
pub open spec fn selection_in_range(app: AppView) -> bool {
    match app.table.selected {
        Some(i) => i < app.entries.len(),
        None => true,
    }
}

/// Late answers from an abandoned scan are ignored: once a directory has been
/// read anew, no message that was asked for before changes anything.
pub proof fn law_late_durations_are_ignored(
    before: AppView,
    read: Result<Seq<DirItemView>, Seq<char>>,
    select: Option<Seq<u8>>,
    after: AppView,
    probes: Seq<Seq<u8>>,
    messages: Seq<DurationMsgView>,
)
    requires
        before.rescans_to(read, select, after, probes),
        forall|i: int| 0 <= i < messages.len() ==> (#[trigger] messages[i]).scan_gen
            <= before.scan_gen,
    ensures
        after.with_durations(messages) == after,
    decreases messages.len(),
{
    if messages.len() > 0 {
        let rest = messages.drop_last();
        assert forall|i: int| 0 <= i < rest.len() implies (#[trigger] rest[i]).scan_gen
            <= before.scan_gen by {
            assert(rest[i] == messages[i]);
        }
        law_late_durations_are_ignored(before, read, select, after, probes, rest);
        assert(messages[messages.len() - 1].scan_gen <= before.scan_gen);
    }
}

/// Two entries that differ at most in their length.
pub open spec fn same_but_length(a: EntryView, b: EntryView) -> bool {
    a.name == b.name && a.path == b.path && a.is_dir == b.is_dir && a.created == b.created
}

/// The lengths that probes found change nothing but the lengths of entries.
pub proof fn law_durations_change_only_lengths(app: AppView, messages: Seq<DurationMsgView>)
    ensures
        ({
            let after = app.with_durations(messages);
            &&& after == (AppView { entries: after.entries, ..app })
            &&& after.entries.len() == app.entries.len()
            &&& forall|i: int|
                0 <= i < app.entries.len() ==> same_but_length(
                    #[trigger] after.entries[i],
                    app.entries[i],
                )
        }),
    decreases messages.len(),
{
    if messages.len() > 0 {
        let middle = app.with_durations(messages.drop_last());
        let message = messages.last();
        law_durations_change_only_lengths(app, messages.drop_last());
        law_find_path_is_first(middle.entries, message.path, 0);
        let after = middle.with_duration(message);
        assert forall|i: int| 0 <= i < app.entries.len() implies same_but_length(
            #[trigger] after.entries[i],
            app.entries[i],
        ) by {
            assert(same_but_length(middle.entries[i], app.entries[i]));
        }
    }
}

/// An answer to the current scan for a listed path settles the first entry that
/// has the path.
pub proof fn law_duration_settles_entry(app: AppView, message: DurationMsgView, i: int)
    requires
        message.scan_gen == app.scan_gen,
        0 <= i < app.entries.len(),
        same_path(app.entries[i].path, message.path),
        forall|j: int| 0 <= j < i ==> !same_path(#[trigger] app.entries[j].path, message.path),
    ensures
        app.with_duration(message).entries[i].duration == message.duration,
        !app.with_duration(message).entries[i].duration_pending,
        app.with_duration(message).known_duration(message.path) == message.duration,
{
    law_find_path_is_first(app.entries, message.path, 0);
    let k = find_path(app.entries, message.path, 0)->0;
    assert(k == i);
    let after = app.with_duration(message);
    law_find_path_is_first(after.entries, message.path, 0);
    assert(same_path(after.entries[i].path, message.path));
    let m = find_path(after.entries, message.path, 0)->0;
    if m < i {
        assert(after.entries[m] == app.entries[m]);
    }
}

/// No two rows have the same path.
pub open spec fn paths_differ(app: AppView) -> bool {
    forall|i: int, j: int|
        0 <= i < j < app.entries.len() ==> !same_path(
            #[trigger] app.entries[i].path,
            #[trigger] app.entries[j].path,
        )
}

/// Once the current scan has an answer for a row, the row no longer waits.
pub proof fn law_answered_row_is_settled(
    app: AppView,
    messages: Seq<DurationMsgView>,
    i: int,
    k: int,
)
    requires
        paths_differ(app),
        0 <= i < app.entries.len(),
        0 <= k < messages.len(),
        messages[k].scan_gen == app.scan_gen,
        same_path(app.entries[i].path, messages[k].path),
    ensures
        !app.with_durations(messages).entries[i].duration_pending,
    decreases messages.len(),
{
    let rest = messages.drop_last();
    let middle = app.with_durations(rest);
    let message = messages.last();
    law_durations_change_only_lengths(app, rest);
    law_find_path_is_first(middle.entries, message.path, 0);
    assert(same_but_length(middle.entries[i], app.entries[i]));
    if k < messages.len() - 1 {
        assert(rest[k] == messages[k]);
        law_answered_row_is_settled(app, rest, i, k);
    } else if let Some(f) = find_path(middle.entries, message.path, 0) {
        assert(same_but_length(middle.entries[f], app.entries[f]));
        assert(same_path(app.entries[f].path, app.entries[i].path));
        if f < i {
            assert(!same_path(app.entries[f].path, app.entries[i].path));
        }
        assert(f == i);
    }
}

/// A directory that could be read is shown with a row selected, unless it shows
/// nothing.
pub proof fn law_scan_selects_a_row(
    before: AppView,
    items: Seq<DirItemView>,
    select: Option<Seq<u8>>,
    after: AppView,
    probes: Seq<Seq<u8>>,
)
    requires
        before.rescans_to(Ok(items), select, after, probes),
        after.entries.len() <= usize::MAX,
    ensures
        selection_in_range(after),
        after.table.selected is Some <==> after.entries.len() > 0,
{
    if let Some(path) = select {
        law_find_path_is_first(after.entries, path, 0);
    }
}

/// A path that was to be kept stays selected where it is still listed; else the
/// first row is.
pub proof fn law_scan_keeps_selection(
    before: AppView,
    items: Seq<DirItemView>,
    path: Seq<u8>,
    after: AppView,
    probes: Seq<Seq<u8>>,
)
    requires
        before.rescans_to(Ok(items), Some(path), after, probes),
        0 < after.entries.len() <= usize::MAX,
    ensures
        after.selected_entry() is Some,
        (exists|i: int|
            0 <= i < after.entries.len() && same_path(#[trigger] after.entries[i].path, path))
            ==> same_path(after.selected_path()->0, path),
        (forall|i: int|
            0 <= i < after.entries.len() ==> !same_path(#[trigger] after.entries[i].path, path))
            ==> after.table.selected == Some(0usize),
{
    law_find_path_is_first(after.entries, path, 0);
}

/// A key keeps the selection a row of the listing, and keeps one where there is
/// one.
pub proof fn law_key_keeps_selection_in_range(
    app: AppView,
    key: KeyInput,
    sink: Option<SinkReport>,
)
    requires
        selection_in_range(app),
        app.entries.len() <= usize::MAX,
    ensures
        selection_in_range(app.on_key(key, sink).0),
        app.table.selected is Some ==> app.on_key(key, sink).0.table.selected is Some,
{
}

/// The step to the next track keeps the selection a row of the listing, and
/// keeps one where there is one.
pub proof fn law_advance_keeps_selection_in_range(app: AppView, sink: Option<SinkReport>)
    requires
        selection_in_range(app),
        app.entries.len() <= usize::MAX,
    ensures
        selection_in_range(app.auto_advance(sink).0),
        app.table.selected is Some ==> app.auto_advance(sink).0.table.selected is Some,
{
    if let Some(n) = app.next_track() {
        law_find_path_is_first(app.entries, app.entries[n].path, 0);
    }
}

/// A key leaves the listing and the number of the scan as they are; what it
/// shows anew, a scan brings.
pub proof fn law_key_keeps_listing(app: AppView, key: KeyInput, sink: Option<SinkReport>)
    ensures
        app.on_key(key, sink).0.entries == app.entries,
        app.on_key(key, sink).0.scan_gen == app.scan_gen,
{
}

/// A key that does not go down does nothing.
pub proof fn law_only_presses_count(app: AppView, key: KeyInput, sink: Option<SinkReport>)
    requires
        !key.press,
    ensures
        app.on_key(key, sink) == (app, ActionView::Nothing),
{
}

/// The application is left by `q`, by Escape and by Control with `c`, and by no
/// other key.
pub proof fn law_quit_keys(app: AppView, key: KeyInput, sink: Option<SinkReport>)
    ensures
        app.on_key(key, sink).0.quit <==> app.quit || (key.press && (key.code == Key::Esc
            || key.code == Key::Char('q') || (key.code == Key::Char('c') && key.control))),
{
}

/// Without an audio output no key asks anything of a sink, and no player comes
/// into being.
pub proof fn law_no_output_no_audio(app: AppView, key: KeyInput, sink: Option<SinkReport>)
    requires
        app.player is None,
    ensures
        app.on_key(key, sink).0.player is None,
        app.on_key(key, sink).1 is Nothing || app.on_key(key, sink).1 is Rescan,
        app.auto_advance(sink) == (app, ActionView::Nothing),
{
}

/// Showing the hidden entries and hiding them again changes nothing, and each
/// time the directory is read anew with the selected path kept.
pub proof fn law_hidden_toggles(app: AppView, sink: Option<SinkReport>)
    ensures
        ({
            let (once, first) = app.obey(Command::ToggleHidden, sink);
            let (twice, second) = once.obey(Command::ToggleHidden, sink);
            &&& once.show_hidden == !app.show_hidden
            &&& twice == app
            &&& first == (ActionView::Rescan { select: app.selected_path() })
            &&& second == first
        }),
{
}

/// Two moves in the same direction are one move by both counts.
pub proof fn law_moves_add_up(app: AppView, a: int, b: int)
    requires
        selection_in_range(app),
        app.entries.len() <= usize::MAX,
        (a >= 0 && b >= 0) || (a <= 0 && b <= 0),
    ensures
        app.move_selection(a).move_selection(b) == app.move_selection(a + b),
{
}

/// A move that stays within the listing is undone by the move back.
pub proof fn law_move_back_undoes_move(app: AppView, i: usize, delta: int)
    requires
        app.table.selected == Some(i),
        i < app.entries.len() <= usize::MAX,
        0 <= i + delta < app.entries.len(),
    ensures
        app.move_selection(delta).table.selected == Some((i + delta) as usize),
        app.move_selection(delta).move_selection(-delta) == app,
{
}

proof fn lemma_listed_member(show_hidden: bool, items: Seq<DirItemView>, k: int)
    requires
        0 <= k < items.len(),
        is_listed(show_hidden, shown_text(items[k].file_name), items[k].path, items[k].is_dir),
    ensures
        listed_entries(show_hidden, items).contains(entry_for(items[k])),
    decreases items.len(),
{
    let all = listed_entries(show_hidden, items);
    let rest = listed_entries(show_hidden, items.drop_last());
    if k == items.len() - 1 {
        assert(all[rest.len() as int] == entry_for(items[k]));
    } else {
        lemma_listed_member(show_hidden, items.drop_last(), k);
        let i = choose|i: int| 0 <= i < rest.len() && rest[i] == entry_for(items[k]);
        assert(all[i] == rest[i]);
    }
}

proof fn lemma_listed_origin(show_hidden: bool, items: Seq<DirItemView>, i: int) -> (k: int)
    requires
        0 <= i < listed_entries(show_hidden, items).len(),
    ensures
        0 <= k < items.len(),
        listed_entries(show_hidden, items)[i] == entry_for(items[k]),
        is_listed(show_hidden, shown_text(items[k].file_name), items[k].path, items[k].is_dir),
    decreases items.len(),
{
    let rest = listed_entries(show_hidden, items.drop_last());
    if i < rest.len() {
        lemma_listed_origin(show_hidden, items.drop_last(), i)
    } else {
        items.len() - 1
    }
}

proof fn lemma_same_members(from: Seq<EntryView>, to: Seq<EntryView>, e: EntryView)
    requires
        is_stable_sort(by_name(from), by_name(to)),
    ensures
        from.contains(e) <==> to.contains(e),
{
    law_listing_is_permutation(by_name(from), by_name(to));
    broadcast use vstd::seq_lib::group_to_multiset_ensures;

    let x = name_keyed(e);
    assert(by_name(from).contains(x) <==> by_name(from).to_multiset().count(x) > 0);
    assert(by_name(to).contains(x) <==> by_name(to).to_multiset().count(x) > 0);
    lemma_by_name_contains(from, e);
    lemma_by_name_contains(to, e);
}

proof fn lemma_by_name_contains(s: Seq<EntryView>, e: EntryView)
    ensures
        by_name(s).contains(name_keyed(e)) <==> s.contains(e),
{
    if s.contains(e) {
        let i = choose|i: int| 0 <= i < s.len() && s[i] == e;
        assert(by_name(s)[i] == name_keyed(e));
    }
    if by_name(s).contains(name_keyed(e)) {
        let i = choose|i: int| 0 <= i < by_name(s).len() && by_name(s)[i] == name_keyed(e);
        assert(by_name(s)[i].entry == s[i]);
    }
}

/// No two items have the same path.
pub open spec fn item_paths_differ(items: Seq<DirItemView>) -> bool {
    forall|i: int, j: int|
        0 <= i < j < items.len() ==> !same_path(
            #[trigger] items[i].path,
            #[trigger] items[j].path,
        )
}

proof fn lemma_listed_paths_differ(show_hidden: bool, items: Seq<DirItemView>, i: int, j: int)
    requires
        item_paths_differ(items),
        0 <= i < j < listed_entries(show_hidden, items).len(),
    ensures
        !same_path(
            listed_entries(show_hidden, items)[i].path,
            listed_entries(show_hidden, items)[j].path,
        ),
    decreases items.len(),
{
    let before = items.drop_last();
    let rest = listed_entries(show_hidden, before);
    if j < rest.len() {
        lemma_listed_paths_differ(show_hidden, before, i, j);
    } else {
        let k = lemma_listed_origin(show_hidden, before, i);
        assert(before[k] == items[k]);
        assert(!same_path(items[k].path, items[items.len() - 1].path));
    }
}

/// Where no two items have the same path, a scan shows no two rows with the same
/// path.
pub proof fn law_scan_keeps_paths_apart(
    before: AppView,
    items: Seq<DirItemView>,
    select: Option<Seq<u8>>,
    after: AppView,
    probes: Seq<Seq<u8>>,
)
    requires
        before.rescans_to(Ok(items), select, after, probes),
        item_paths_differ(items),
    ensures
        paths_differ(after),
{
    let from = listed_entries(before.show_hidden, items);
    let to = after.entries;
    let keys = by_name(from);
    assert forall|p: int, q: int| 0 <= p < q < from.len() implies !same_path(
        #[trigger] from[p].path,
        #[trigger] from[q].path,
    ) by {
        lemma_listed_paths_differ(before.show_hidden, items, p, q);
    }
    assert forall|p: int, q: int|
        0 <= p < keys.len() && 0 <= q < keys.len() && p != q implies keys[p] != keys[q] by {
        assert(keys[p].entry == from[p] && keys[q].entry == from[q]);
        assert(same_path(from[p].path, from[p].path));
    }
    law_listing_is_permutation(keys, by_name(to));
    keys.lemma_multiset_has_no_duplicates();
    by_name(to).lemma_multiset_has_no_duplicates_conv();
    assert forall|i: int, j: int| 0 <= i < j < to.len() implies !same_path(
        #[trigger] to[i].path,
        #[trigger] to[j].path,
    ) by {
        assert(to.contains(to[i]) && to.contains(to[j]));
        lemma_same_members(from, to, to[i]);
        lemma_same_members(from, to, to[j]);
        let p = choose|p: int| 0 <= p < from.len() && from[p] == to[i];
        let q = choose|q: int| 0 <= q < from.len() && from[q] == to[j];
        assert(by_name(to).len() == to.len());
        assert(by_name(to)[i] != by_name(to)[j]);
        assert(!same_path(from[p].path, from[q].path) || !same_path(from[q].path, from[p].path));
    }
}

/// A scan shows every item that is to be listed.
pub proof fn law_scan_shows_all_listed(
    before: AppView,
    items: Seq<DirItemView>,
    select: Option<Seq<u8>>,
    after: AppView,
    probes: Seq<Seq<u8>>,
    k: int,
)
    requires
        before.rescans_to(Ok(items), select, after, probes),
        0 <= k < items.len(),
        is_listed(
            before.show_hidden,
            shown_text(items[k].file_name),
            items[k].path,
            items[k].is_dir,
        ),
    ensures
        after.entries.contains(entry_for(items[k])),
{
    lemma_listed_member(before.show_hidden, items, k);
    lemma_same_members(
        listed_entries(before.show_hidden, items),
        after.entries,
        entry_for(items[k]),
    );
}

/// A scan shows nothing else: each row is a directory or an audio file that the
/// file system told of, and none is hidden unless the hidden ones are shown.
pub proof fn law_scan_shows_only_listed(
    before: AppView,
    items: Seq<DirItemView>,
    select: Option<Seq<u8>>,
    after: AppView,
    probes: Seq<Seq<u8>>,
    i: int,
)
    requires
        before.rescans_to(Ok(items), select, after, probes),
        0 <= i < after.entries.len(),
    ensures
        exists|k: int| 0 <= k < items.len() && after.entries[i] == entry_for(#[trigger] items[k]),
        after.entries[i].is_dir || is_audio_path(after.entries[i].path),
        !before.show_hidden ==> !is_hidden(after.entries[i].name),
        after.entries[i].duration is None,
        after.entries[i].duration_pending == !after.entries[i].is_dir,
{
    let listed = listed_entries(before.show_hidden, items);
    let e = after.entries[i];
    assert(after.entries.contains(e));
    lemma_same_members(listed, after.entries, e);
    let j = choose|j: int| 0 <= j < listed.len() && listed[j] == e;
    let k = lemma_listed_origin(before.show_hidden, items, j);
    assert(e == entry_for(items[k]));
}

/// A scan shows the directories above the files.
pub proof fn law_scan_shows_directories_first(
    before: AppView,
    items: Seq<DirItemView>,
    select: Option<Seq<u8>>,
    after: AppView,
    probes: Seq<Seq<u8>>,
    i: int,
    j: int,
)
    requires
        before.rescans_to(Ok(items), select, after, probes),
        0 <= i < j < after.entries.len(),
        after.entries[j].is_dir,
    ensures
        after.entries[i].is_dir,
{
    assert(!entry_before(by_name(after.entries)[j], by_name(after.entries)[i]));
}

/// Within the directories, and within the files, a scan shows the names in
/// dictionary order, whatever their case.
pub proof fn law_scan_shows_names_in_order(
    before: AppView,
    items: Seq<DirItemView>,
    select: Option<Seq<u8>>,
    after: AppView,
    probes: Seq<Seq<u8>>,
    i: int,
    j: int,
)
    requires
        before.rescans_to(Ok(items), select, after, probes),
        0 <= i < j < after.entries.len(),
        after.entries[i].is_dir == after.entries[j].is_dir,
    ensures
        !text_before(caseless(after.entries[j].name), caseless(after.entries[i].name)),
{
    assert(!entry_before(by_name(after.entries)[j], by_name(after.entries)[i]));
}

/// Two scans that give the same items show the same rows.
pub proof fn law_scan_is_repeatable(
    before: AppView,
    items: Seq<DirItemView>,
    select: Option<Seq<u8>>,
    a: AppView,
    a_probes: Seq<Seq<u8>>,
    b: AppView,
    b_probes: Seq<Seq<u8>>,
)
    requires
        before.rescans_to(Ok(items), select, a, a_probes),
        before.rescans_to(Ok(items), select, b, b_probes),
    ensures
        a == b,
        a_probes == b_probes,
{
    let listed = by_name(listed_entries(before.show_hidden, items));
    law_listing_is_unique(listed, by_name(a.entries), by_name(b.entries));
    lemma_by_name_injective(a.entries, b.entries);
}

/// The entries that are not hidden, in their order.
pub open spec fn visible(s: Seq<EntryView>) -> Seq<EntryView>
    decreases s.len(),
{
    if s.len() == 0 {
        s
    } else if is_hidden(s.last().name) {
        visible(s.drop_last())
    } else {
        visible(s.drop_last()).push(s.last())
    }
}

spec fn visible_keyed(s: Seq<Keyed>) -> Seq<Keyed>
    decreases s.len(),
{
    if s.len() == 0 {
        s
    } else if is_hidden(s.last().entry.name) {
        visible_keyed(s.drop_last())
    } else {
        visible_keyed(s.drop_last()).push(s.last())
    }
}

proof fn lemma_visible_by_name(s: Seq<EntryView>)
    ensures
        visible_keyed(by_name(s)) == by_name(visible(s)),
    decreases s.len(),
{
    if s.len() == 0 {
        assert(by_name(s) =~= by_name(visible(s)));
    } else {
        lemma_visible_by_name(s.drop_last());
        assert(by_name(s).drop_last() =~= by_name(s.drop_last()));
        assert(visible_keyed(by_name(s)) =~= by_name(visible(s)));
    }
}

proof fn lemma_visible_rank_class(s: Seq<Keyed>, e: Keyed)
    ensures
        rank_class(visible_keyed(s), e) == visible_keyed(rank_class(s, e)),
    decreases s.len(),
{
    if s.len() > 0 {
        let rest = s.drop_last();
        let last = s.last();
        lemma_visible_rank_class(rest, e);
        assert(visible_keyed(rest).push(last).drop_last() =~= visible_keyed(rest));
        assert(rank_class(rest, e).push(last).drop_last() =~= rank_class(rest, e));
    } else {
        assert(visible_keyed(s) =~= s);
        assert(rank_class(s, e) =~= Seq::<Keyed>::empty());
    }
}

proof fn lemma_visible_member(s: Seq<Keyed>, i: int) -> (k: int)
    requires
        0 <= i < visible_keyed(s).len(),
    ensures
        0 <= k < s.len(),
        s[k] == visible_keyed(s)[i],
    decreases s.len(),
{
    if i < visible_keyed(s.drop_last()).len() {
        lemma_visible_member(s.drop_last(), i)
    } else {
        s.len() - 1
    }
}

proof fn lemma_visible_in_order(s: Seq<Keyed>)
    requires
        in_order(s),
    ensures
        in_order(visible_keyed(s)),
    decreases s.len(),
{
    if s.len() > 0 {
        let rest = visible_keyed(s.drop_last());
        let out = visible_keyed(s);
        lemma_visible_in_order(s.drop_last());
        assert forall|i: int, j: int| 0 <= i < j < out.len() implies !entry_before(
            out[j],
            out[i],
        ) by {
            if j < rest.len() {
                assert(!entry_before(rest[j], rest[i]));
            } else {
                let k = lemma_visible_member(s.drop_last(), i);
                assert(!entry_before(s[s.len() - 1], s[k]));
            }
        }
    }
}

proof fn lemma_visible_listed(items: Seq<DirItemView>)
    ensures
        listed_entries(false, items) == visible(listed_entries(true, items)),
    decreases items.len(),
{
    if items.len() > 0 {
        lemma_visible_listed(items.drop_last());
        let rest = listed_entries(true, items.drop_last());
        assert(rest.push(entry_for(items.last())).drop_last() =~= rest);
    } else {
        assert(listed_entries(false, items) =~= visible(listed_entries(true, items)));
    }
}

/// Hiding only removes rows: what is shown of the same items without the hidden
/// ones is what is shown with them, less the hidden rows.
pub proof fn law_hiding_only_removes_rows(
    with_hidden: AppView,
    without_hidden: AppView,
    items: Seq<DirItemView>,
    a_select: Option<Seq<u8>>,
    a: AppView,
    a_probes: Seq<Seq<u8>>,
    b_select: Option<Seq<u8>>,
    b: AppView,
    b_probes: Seq<Seq<u8>>,
)
    requires
        with_hidden.show_hidden,
        !without_hidden.show_hidden,
        with_hidden.rescans_to(Ok(items), a_select, a, a_probes),
        without_hidden.rescans_to(Ok(items), b_select, b, b_probes),
    ensures
        b.entries == visible(a.entries),
{
    let all = by_name(listed_entries(true, items));
    let some = by_name(listed_entries(false, items));
    let shown = visible_keyed(by_name(a.entries));
    lemma_visible_listed(items);
    lemma_visible_by_name(listed_entries(true, items));
    lemma_visible_by_name(a.entries);
    lemma_visible_in_order(by_name(a.entries));
    assert forall|e: Keyed| rank_class(shown, e) == #[trigger] rank_class(some, e) by {
        lemma_visible_rank_class(by_name(a.entries), e);
        lemma_visible_rank_class(all, e);
        assert(rank_class(by_name(a.entries), e) == rank_class(all, e));
    }
    law_listing_is_unique(some, by_name(b.entries), shown);
    lemma_by_name_injective(b.entries, visible(a.entries));
}

proof fn lemma_by_name_injective(a: Seq<EntryView>, b: Seq<EntryView>)
    requires
        by_name(a) == by_name(b),
    ensures
        a == b,
{
    assert(by_name(a).len() == a.len());
    assert(by_name(b).len() == b.len());
    assert forall|i: int| 0 <= i < a.len() implies a[i] == b[i] by {
        assert(by_name(a)[i].entry == a[i]);
        assert(by_name(b)[i].entry == b[i]);
    }
    assert(a =~= b);
}

/// Going up selects the directory that was left, where the parent lists it.
pub proof fn law_going_up_selects_where_one_was(
    app: AppView,
    items: Seq<DirItemView>,
    after: AppView,
    probes: Seq<Seq<u8>>,
    k: int,
)
    requires
        parent_of(app.cwd) is Some,
        app.go_up().0.rescans_to(Ok(items), Some(app.cwd), after, probes),
        after.entries.len() <= usize::MAX,
        0 <= k < items.len(),
        same_path(items[k].path, app.cwd),
        is_listed(
            app.show_hidden,
            shown_text(items[k].file_name),
            items[k].path,
            items[k].is_dir,
        ),
    ensures
        app.go_up().1 == (ActionView::Rescan { select: Some(app.cwd) }),
        after.cwd == parent_of(app.cwd)->0,
        after.selected_entry() is Some,
        same_path(after.selected_path()->0, app.cwd),
{
    let up = app.go_up().0;
    law_scan_shows_all_listed(up, items, Some(app.cwd), after, probes, k);
    let e = entry_for(items[k]);
    let i = choose|i: int| 0 <= i < after.entries.len() && after.entries[i] == e;
    assert(same_path(after.entries[i].path, app.cwd));
    law_scan_keeps_selection(up, items, app.cwd, after, probes);
}

/// Opening a directory of the listing and going up leads back.
pub proof fn law_going_up_undoes_opening(app: AppView, e: EntryView, name: Seq<u8>)
    requires
        app.selected_entry() == Some(e),
        e.is_dir,
        components(e.path) == components(app.cwd).push(name),
        name != seq![SLASH],
    ensures
        app.enter_selected().0.cwd == e.path,
        same_path(app.enter_selected().0.go_up().0.cwd, app.cwd),
{
    law_parent_drops_last_component(e.path);
    assert(components(app.cwd).push(name).drop_last() =~= components(app.cwd));
    assert(components(e.path).last() == name);
}

/// Opening an item of the current directory and going up leads back.
pub proof fn law_going_up_undoes_opening_an_item(app: AppView, e: EntryView, name: Seq<u8>)
    requires
        app.selected_entry() == Some(e),
        e.is_dir,
        e.path == joined(app.cwd, name),
        is_item_name(name),
    ensures
        app.enter_selected().0.cwd == e.path,
        same_path(app.enter_selected().0.go_up().0.cwd, app.cwd),
{
    law_joining_adds_component(app.cwd, name);
    assert(name != seq![SLASH]) by {
        assert(seq![SLASH][0] == SLASH);
    }
    law_going_up_undoes_opening(app, e, name);
}

/// When a track ends, the first file that follows it in the listing is played
/// and its row is selected.
pub proof fn law_track_end_plays_next_file(
    app: AppView,
    sink: Option<SinkReport>,
    player: PlayerView,
    current: Seq<u8>,
    i: int,
    n: int,
)
    requires
        app.player == Some(player),
        player.current == Some(current),
        player.finished(sink),
        app.entries.len() <= usize::MAX,
        0 <= i < n < app.entries.len(),
        same_path(app.entries[i].path, current),
        forall|j: int| 0 <= j < i ==> !same_path(#[trigger] app.entries[j].path, current),
        !app.entries[n].is_dir,
        forall|j: int| i < j < n ==> (#[trigger] app.entries[j]).is_dir,
    ensures
        ({
            let (after, action) = app.auto_advance(sink);
            let path = app.entries[n].path;
            &&& action == (ActionView::Play { path, known_duration: app.known_duration(path) })
            &&& after.selected_entry() is Some
            &&& same_path(after.selected_path()->0, path)
            &&& after == (AppView { table: after.table, ..app })
        }),
{
    law_find_path_is_first(app.entries, current, 0);
    assert(find_path(app.entries, current, 0) == Some(i));
    law_find_file_is_first(app.entries, i + 1);
    assert(find_file(app.entries, i + 1) == Some(n));
    law_find_path_is_first(app.entries, app.entries[n].path, 0);
    assert(same_path(app.entries[n].path, app.entries[n].path));
}

/// When a track ends and no file follows it, or it is not listed, the player is
/// emptied.
pub proof fn law_track_end_stops_at_last_file(
    app: AppView,
    sink: Option<SinkReport>,
    player: PlayerView,
    current: Seq<u8>,
)
    requires
        app.player == Some(player),
        player.current == Some(current),
        player.finished(sink),
        forall|i: int, j: int|
            0 <= i < j < app.entries.len() && same_path(#[trigger] app.entries[i].path, current)
                ==> (#[trigger] app.entries[j]).is_dir,
    ensures
        app.auto_advance(sink) == (
            AppView { player: Some(idle_player()), ..app },
            ActionView::Stop,
        ),
{
    law_find_path_is_first(app.entries, current, 0);
    if let Some(i) = find_path(app.entries, current, 0) {
        law_find_file_is_first(app.entries, i + 1);
        if let Some(n) = find_file(app.entries, i + 1) {
            assert(app.entries[n].is_dir);
        }
    }
}

/// The files that are played, one after the other, when each track ends and
/// each opening goes well: at most `rounds` of them.
pub open spec fn played(
    app: AppView,
    dry: SinkReport,
    lengths: spec_fn(Seq<u8>) -> Option<nat>,
    rounds: nat,
) -> Seq<Seq<u8>>
    decreases rounds,
{
    if rounds == 0 {
        Seq::empty()
    } else {
        let (after, action) = app.auto_advance(Some(dry));
        match action {
            ActionView::Play { path, known_duration } => seq![path] + played(
                after.opened(path, known_duration, Ok(lengths(path))),
                dry,
                lengths,
                (rounds - 1) as nat,
            ),
            _ => Seq::empty(),
        }
    }
}

proof fn lemma_file_paths_add(s: Seq<EntryView>, t: Seq<EntryView>)
    ensures
        file_paths(s + t) == file_paths(s) + file_paths(t),
    decreases t.len(),
{
    if t.len() == 0 {
        assert(s + t =~= s);
        assert(file_paths(s) + file_paths(t) =~= file_paths(s));
    } else {
        lemma_file_paths_add(s, t.drop_last());
        assert((s + t).drop_last() =~= s + t.drop_last());
        assert(file_paths(s + t) =~= file_paths(s) + file_paths(t));
    }
}

proof fn lemma_file_paths_from(s: Seq<EntryView>, i: int)
    requires
        0 <= i <= s.len(),
    ensures
        file_paths(s.skip(i)) == match find_file(s, i) {
            Some(n) => seq![s[n].path] + file_paths(s.skip(n + 1)),
            None => Seq::empty(),
        },
    decreases s.len() - i,
{
    if i < s.len() {
        let first = seq![s[i]];
        lemma_file_paths_from(s, i + 1);
        lemma_file_paths_add(first, s.skip(i + 1));
        assert(s.skip(i) =~= first + s.skip(i + 1));
        assert(first.drop_last() =~= Seq::<EntryView>::empty());
        assert(file_paths(Seq::<EntryView>::empty()) =~= Seq::<Seq<u8>>::empty());
        if s[i].is_dir {
            assert(file_paths(first) =~= Seq::<Seq<u8>>::empty());
            assert(file_paths(first) + file_paths(s.skip(i + 1)) =~= file_paths(s.skip(i + 1)));
        } else {
            assert(file_paths(first) =~= seq![s[i].path]);
        }
    } else {
        assert(s.skip(i) =~= Seq::<EntryView>::empty());
    }
}

/// From the loaded track on, the files that follow it in the listing are played
/// in their order, each once.
pub proof fn law_later_files_play_in_order(
    app: AppView,
    player: PlayerView,
    current: Seq<u8>,
    i: int,
    dry: SinkReport,
    lengths: spec_fn(Seq<u8>) -> Option<nat>,
    rounds: nat,
)
    requires
        paths_differ(app),
        app.entries.len() <= usize::MAX,
        app.player == Some(player),
        player.current == Some(current),
        0 <= i < app.entries.len(),
        same_path(app.entries[i].path, current),
        dry.empty,
        rounds >= app.entries.len() - i,
    ensures
        played(app, dry, lengths, rounds) == file_paths(app.entries.skip(i + 1)),
    decreases rounds,
{
    law_find_path_is_first(app.entries, current, 0);
    let f = find_path(app.entries, current, 0)->0;
    if f < i {
        assert(!same_path(app.entries[f].path, app.entries[i].path));
    }
    assert(f == i);
    lemma_file_paths_from(app.entries, i + 1);
    law_find_file_is_first(app.entries, i + 1);
    if let Some(n) = find_file(app.entries, i + 1) {
        let path = app.entries[n].path;
        let (after, action) = app.auto_advance(Some(dry));
        let next = after.opened(path, app.known_duration(path), Ok(lengths(path)));
        assert(next.entries == app.entries);
        law_later_files_play_in_order(
            next,
            next.player->0,
            path,
            n,
            dry,
            lengths,
            (rounds - 1) as nat,
        );
    }
}

/// As long as a track plays, nothing advances.
pub proof fn law_no_advance_while_playing(app: AppView, sink: SinkReport)
    requires
        !sink.empty,
    ensures
        app.auto_advance(Some(sink)) == (app, ActionView::Nothing),
{
}

/// A file that could not be opened leaves the track that was loaded; one that
/// could be opened is the loaded track, and clears the status line.
pub proof fn law_opening(
    app: AppView,
    path: Seq<u8>,
    known: Option<nat>,
    outcome: Result<Option<nat>, Seq<char>>,
)
    requires
        app.player is Some,
    ensures
        outcome is Err ==> app.opened(path, known, outcome).player == app.player,
        outcome is Err ==> app.opened(path, known, outcome).status is Some,
        outcome is Ok ==> app.opened(path, known, outcome).status is None,
        outcome is Ok ==> current_track(app.opened(path, known, outcome)) == Some(path),
{
}

/// Only a loaded track has a length.
pub open spec fn length_has_track(app: AppView) -> bool {
    app.player matches Some(p) && p.total is Some ==> current_track(app) is Some
}

/// Whatever happens, only a loaded track has a length.
pub proof fn law_length_has_track(
    app: AppView,
    key: KeyInput,
    sink: Option<SinkReport>,
    path: Seq<u8>,
    known: Option<nat>,
    outcome: Result<Option<nat>, Seq<char>>,
)
    requires
        length_has_track(app),
    ensures
        length_has_track(app.on_key(key, sink).0),
        length_has_track(app.auto_advance(sink).0),
        length_has_track(app.opened(path, known, outcome)),
{
}

/// A message in the status line is on the screen, whether a track is loaded or
/// not.
pub proof fn law_status_is_visible(
    app: AppView,
    sink: Option<SinkReport>,
    volume_percent: nat,
    message: Seq<char>,
)
    requires
        app.status == Some(message),
    ensures
        current_track(app) is Some ==> help_line(app) == (" "@ + message, Tone::Alarm),
        current_track(app) is None ==> info_line(app, sink, volume_percent)[0] == (
            " "@ + message,
            Tone::Dim,
        ),
{
}

/// The gauge shows a share of the track between none and all of it.
pub proof fn law_progress_is_a_share(app: AppView, sink: Option<SinkReport>)
    ensures
        track_progress(app, sink) matches Some(p) ==> p.0 <= p.1 && p.1 > 0,
        track_progress(app, sink) is Some <==> known_total(app) is Some,
{
}

} // verus!
