//! The listing of a directory: what is listed, and in which order.
use crate::path::{is_audio, is_audio_path, same_path, UnixPath};
use crate::text::{
    caseless, fold_case, lemma_text_before_irreflexive, lemma_text_before_total,
    lemma_text_before_transitive, precedes, show_bytes, shown_text, text_before,
};
use crate::time::{TimeSpan, Timestamp};
use vstd::prelude::*;

verus! {

/// One line of the listing.
pub struct Entry {
    pub name: String,
    pub path: UnixPath,
    pub is_dir: bool,
    pub created: Option<Timestamp>,
    pub duration: Option<TimeSpan>,
    pub duration_pending: bool,
}

/// What an entry holds.
pub struct EntryView {
    pub name: Seq<char>,
    pub path: Seq<u8>,
    pub is_dir: bool,
    pub created: Option<int>,
    pub duration: Option<nat>,
    pub duration_pending: bool,
}

/// The length of a span that may be unknown.
pub open spec fn span_view(d: Option<TimeSpan>) -> Option<nat> {
    match d {
        Some(d) => Some(d@),
        None => None,
    }
}

/// The number of a moment that may be unknown.
pub open spec fn moment_view(t: Option<Timestamp>) -> Option<int> {
    match t {
        Some(t) => Some(t@),
        None => None,
    }
}

impl View for Entry {
    type V = EntryView;

    open spec fn view(&self) -> EntryView {
        EntryView {
            name: self.name@,
            path: self.path@,
            is_dir: self.is_dir,
            created: moment_view(self.created),
            duration: span_view(self.duration),
            duration_pending: self.duration_pending,
        }
    }
}

/// What the entries of a vector hold.
pub open spec fn entry_views(v: Seq<Entry>) -> Seq<EntryView> {
    Seq::new(v.len(), |i: int| v[i]@)
}

/// What the file system tells of a directory's item. Not every file system
/// knows when an item was created.
pub struct DirItem {
    pub file_name: Vec<u8>,
    pub path: UnixPath,
    pub is_dir: bool,
    pub created: Option<Timestamp>,
    pub modified: Option<Timestamp>,
}

/// What an item holds.
pub struct DirItemView {
    pub file_name: Seq<u8>,
    pub path: Seq<u8>,
    pub is_dir: bool,
    pub created: Option<int>,
    pub modified: Option<int>,
}

impl View for DirItem {
    type V = DirItemView;

    open spec fn view(&self) -> DirItemView {
        DirItemView {
            file_name: self.file_name@,
            path: self.path@,
            is_dir: self.is_dir,
            created: moment_view(self.created),
            modified: moment_view(self.modified),
        }
    }
}

/// What the items of a vector hold.
pub open spec fn item_views(v: Seq<DirItem>) -> Seq<DirItemView> {
    Seq::new(v.len(), |i: int| v[i]@)
}

/// A name that starts with a dot is hidden.
pub open spec fn is_hidden(name: Seq<char>) -> bool {
    name.len() > 0 && name[0] == '.'
}

/// What is listed: directories and audio files, the hidden ones only on demand.
pub open spec fn is_listed(
    show_hidden: bool,
    name: Seq<char>,
    path: Seq<u8>,
    is_dir: bool,
) -> bool {
    (show_hidden || !is_hidden(name)) && (is_dir || is_audio_path(path))
}

/// The moment that is shown of an item: when it was created, or where that is
/// not known when it was modified.
pub open spec fn shown_moment(created: Option<int>, modified: Option<int>) -> Option<int> {
    if created is Some {
        created
    } else {
        modified
    }
}

/// The entry that stands for an item. The length of a file is yet to be found.
pub open spec fn entry_for(item: DirItemView) -> EntryView {
    EntryView {
        name: shown_text(item.file_name),
        path: item.path,
        is_dir: item.is_dir,
        created: shown_moment(item.created, item.modified),
        duration: None,
        duration_pending: !item.is_dir,
    }
}

/// The entries for the listed items, in the order of the items.
pub open spec fn listed_entries(show_hidden: bool, items: Seq<DirItemView>) -> Seq<EntryView>
    decreases items.len(),
{
    if items.len() == 0 {
        Seq::empty()
    } else {
        let rest = listed_entries(show_hidden, items.drop_last());
        let item = items.last();
        if is_listed(show_hidden, shown_text(item.file_name), item.path, item.is_dir) {
            rest.push(entry_for(item))
        } else {
            rest
        }
    }
}

/// Directories rank before files, and within each kind the order is that of the
/// keys.
pub open spec fn ranks_before(
    a_is_dir: bool,
    a_key: Seq<char>,
    b_is_dir: bool,
    b_key: Seq<char>,
) -> bool {
    if a_is_dir != b_is_dir {
        a_is_dir
    } else {
        text_before(a_key, b_key)
    }
}

/// An entry with the key by which it is ordered.
pub struct Keyed {
    pub entry: EntryView,
    pub key: Seq<char>,
}

/// Entries with their keys.
pub open spec fn keyed(entries: Seq<EntryView>, keys: Seq<Seq<char>>) -> Seq<Keyed> {
    Seq::new(entries.len(), |i: int| Keyed { entry: entries[i], key: keys[i] })
}

/// An entry with its name, without regard to case, as the key.
pub open spec fn name_keyed(e: EntryView) -> Keyed {
    Keyed { entry: e, key: caseless(e.name) }
}

/// Entries with their names, without regard to case, as the keys.
pub open spec fn by_name(entries: Seq<EntryView>) -> Seq<Keyed> {
    Seq::new(entries.len(), |i: int| name_keyed(entries[i]))
}

/// The texts of a vector.
pub open spec fn text_views(v: Seq<String>) -> Seq<Seq<char>> {
    Seq::new(v.len(), |i: int| v[i]@)
}

/// The order of entries with their keys.
pub open spec fn entry_before(a: Keyed, b: Keyed) -> bool {
    ranks_before(a.entry.is_dir, a.key, b.entry.is_dir, b.key)
}

/// Entries of which neither comes before the other.
pub open spec fn same_rank(a: Keyed, b: Keyed) -> bool {
    !entry_before(a, b) && !entry_before(b, a)
}

/// No entry comes before one that stands further up.
pub open spec fn in_order(s: Seq<Keyed>) -> bool {
    forall|i: int, j: int| 0 <= i < j < s.len() ==> !entry_before(s[j], s[i])
}

/// The entries that have the rank of `e`, in their order.
pub open spec fn rank_class(s: Seq<Keyed>, e: Keyed) -> Seq<Keyed>
    decreases s.len(),
{
    if s.len() == 0 {
        Seq::empty()
    } else if same_rank(s.last(), e) {
        rank_class(s.drop_last(), e).push(s.last())
    } else {
        rank_class(s.drop_last(), e)
    }
}

/// The entries `to` are those of `from`, put in order; entries of the same rank
/// keep the order that they had.
pub open spec fn is_stable_sort(from: Seq<Keyed>, to: Seq<Keyed>) -> bool {
    &&& in_order(to)
    &&& forall|e: Keyed| rank_class(to, e) == #[trigger] rank_class(from, e)
}

/// The order of entries respects rank: what comes before an entry comes before
/// all that do not precede that entry.
proof fn lemma_entry_order(a: Keyed, b: Keyed, c: Keyed)
    requires
        entry_before(a, b),
        !entry_before(c, b),
    ensures
        entry_before(a, c),
{
    let (ka, kb, kc) = (a.key, b.key, c.key);
    if b.entry.is_dir == c.entry.is_dir {
        lemma_text_before_total(kb, kc);
        if a.entry.is_dir == b.entry.is_dir && text_before(kb, kc) {
            lemma_text_before_transitive(ka, kb, kc);
        }
    }
}

proof fn lemma_rank_class_add(s: Seq<Keyed>, t: Seq<Keyed>, e: Keyed)
    ensures
        rank_class(s + t, e) == rank_class(s, e) + rank_class(t, e),
    decreases t.len(),
{
    if t.len() == 0 {
        assert(s + t =~= s);
        assert(rank_class(s, e) + rank_class(t, e) =~= rank_class(s, e));
    } else {
        lemma_rank_class_add(s, t.drop_last(), e);
        assert((s + t).drop_last() =~= s + t.drop_last());
        assert(rank_class(s + t, e) =~= rank_class(s, e) + rank_class(t, e));
    }
}

proof fn lemma_rank_class_empty(s: Seq<Keyed>, e: Keyed)
    requires
        forall|i: int| 0 <= i < s.len() ==> !same_rank(#[trigger] s[i], e),
    ensures
        rank_class(s, e) == Seq::<Keyed>::empty(),
    decreases s.len(),
{
    if s.len() > 0 {
        assert forall|i: int| 0 <= i < s.drop_last().len() implies !same_rank(
            #[trigger] s.drop_last()[i],
            e,
        ) by {
            assert(s.drop_last()[i] == s[i]);
        }
        assert(!same_rank(s[s.len() - 1], e));
        lemma_rank_class_empty(s.drop_last(), e);
    }
}

/// An entry put behind all that it does not precede, and before the others,
/// keeps the listing a stable sort.
proof fn lemma_insert(from: Seq<Keyed>, to: Seq<Keyed>, x: Keyed, p: int)
    requires
        is_stable_sort(from, to),
        0 <= p <= to.len(),
        forall|i: int| 0 <= i < p ==> !entry_before(x, #[trigger] to[i]),
        forall|i: int| p <= i < to.len() ==> entry_before(x, #[trigger] to[i]),
    ensures
        is_stable_sort(from.push(x), to.insert(p, x)),
{
    let out = to.insert(p, x);
    let low = to.take(p);
    let high = to.skip(p);
    assert(out =~= low + (seq![x] + high));
    assert(to =~= low + high);
    assert forall|i: int, j: int| 0 <= i < j < out.len() implies !entry_before(out[j], out[i]) by {
        if j < p {
            assert(!entry_before(to[j], to[i]));
        } else if i < p && j > p {
            assert(!entry_before(to[j - 1], to[i]));
        } else if i == p {
            lemma_entry_asymmetric(x, to[j - 1]);
        } else if i > p {
            assert(!entry_before(to[j - 1], to[i - 1]));
        }
    }
    assert forall|e: Keyed| rank_class(out, e) == #[trigger] rank_class(from.push(x), e) by {
        assert(rank_class(to, e) == rank_class(from, e));
        lemma_rank_class_add(low, seq![x] + high, e);
        lemma_rank_class_add(seq![x], high, e);
        lemma_rank_class_add(low, high, e);
        assert(from.push(x).drop_last() =~= from);
        assert(seq![x].drop_last() =~= Seq::<Keyed>::empty());
        assert(rank_class(Seq::<Keyed>::empty(), e) =~= Seq::<Keyed>::empty());
        if same_rank(x, e) {
            assert forall|i: int| 0 <= i < high.len() implies !same_rank(#[trigger] high[i], e) by {
                assert(high[i] == to[p + i]);
                assert(entry_before(x, to[p + i]));
                if same_rank(high[i], e) {
                    lemma_entry_order(x, high[i], e);
                }
            }
            lemma_rank_class_empty(high, e);
            assert(rank_class(out, e) =~= rank_class(from.push(x), e));
        } else {
            assert(rank_class(out, e) =~= rank_class(from.push(x), e));
        }
    }
}

proof fn lemma_entry_asymmetric(a: Keyed, b: Keyed)
    requires
        entry_before(a, b),
    ensures
        !entry_before(b, a),
{
    if entry_before(b, a) {
        let (ka, kb) = (a.key, b.key);
        lemma_text_before_transitive(ka, kb, ka);
        lemma_text_before_irreflexive(ka);
    }
}

proof fn lemma_rank_class_member(s: Seq<Keyed>, e: Keyed, k: int)
    requires
        0 <= k < rank_class(s, e).len(),
    ensures
        s.contains(rank_class(s, e)[k]),
    decreases s.len(),
{
    if s.len() > 0 {
        let rest = rank_class(s.drop_last(), e);
        if k < rest.len() {
            lemma_rank_class_member(s.drop_last(), e, k);
            let i = choose|i: int| 0 <= i < s.drop_last().len() && s.drop_last()[i] == rest[k];
            assert(s[i] == rest[k]);
        } else {
            assert(s[s.len() - 1] == rank_class(s, e)[k]);
        }
    }
}

/// Two orderings of the same entries are equal: the order of the listing is
/// fixed by the items and their order.
pub proof fn law_listing_is_unique(from: Seq<Keyed>, a: Seq<Keyed>, b: Seq<Keyed>)
    requires
        is_stable_sort(from, a),
        is_stable_sort(from, b),
    ensures
        a == b,
{
    assert forall|e: Keyed| rank_class(a, e) == #[trigger] rank_class(b, e) by {
        assert(rank_class(a, e) == rank_class(from, e));
        assert(rank_class(b, e) == rank_class(from, e));
    }
    lemma_equal_classes(a, b);
}

proof fn lemma_last_of_class(s: Seq<Keyed>)
    requires
        s.len() > 0,
    ensures
        rank_class(s, s.last()).len() > 0,
        rank_class(s, s.last()).last() == s.last(),
{
    lemma_text_before_irreflexive(s.last().key);
}

proof fn lemma_last_not_before(a: Seq<Keyed>, b: Seq<Keyed>)
    requires
        in_order(a),
        a.len() > 0,
        b.len() > 0,
        rank_class(a, b.last()) == rank_class(b, b.last()),
    ensures
        !entry_before(a.last(), b.last()),
{
    let y = b.last();
    lemma_last_of_class(b);
    lemma_rank_class_member(a, y, rank_class(a, y).len() - 1);
    let i = choose|i: int| 0 <= i < a.len() && a[i] == y;
    lemma_text_before_irreflexive(y.key);
    if i < a.len() - 1 {
        assert(!entry_before(a[a.len() - 1], a[i]));
    }
}

proof fn lemma_equal_classes(a: Seq<Keyed>, b: Seq<Keyed>)
    requires
        in_order(a),
        in_order(b),
        forall|e: Keyed| rank_class(a, e) == #[trigger] rank_class(b, e),
    ensures
        a == b,
    decreases a.len(),
{
    if a.len() == 0 {
        if b.len() > 0 {
            lemma_last_of_class(b);
            assert(rank_class(a, b.last()) == rank_class(b, b.last()));
        }
        assert(a =~= b);
    } else {
        let x = a.last();
        lemma_last_of_class(a);
        assert(rank_class(a, x) == rank_class(b, x));
        if b.len() == 0 {
            assert(false);
        }
        let y = b.last();
        assert(rank_class(a, y) == rank_class(b, y));
        lemma_last_not_before(a, b);
        lemma_last_not_before(b, a);
        assert(same_rank(y, x));
        assert(rank_class(b, x).last() == y);
        assert(x == y);
        assert forall|e: Keyed|
            rank_class(a.drop_last(), e) == #[trigger] rank_class(b.drop_last(), e) by {
            assert(rank_class(a, e) == rank_class(b, e));
            if same_rank(x, e) {
                assert(rank_class(a.drop_last(), e) =~= rank_class(a, e).drop_last());
                assert(rank_class(b.drop_last(), e) =~= rank_class(b, e).drop_last());
            }
        }
        lemma_equal_classes(a.drop_last(), b.drop_last());
        assert(a =~= a.drop_last().push(x));
        assert(b =~= b.drop_last().push(y));
    }
}

proof fn lemma_rank_class_count(s: Seq<Keyed>, e: Keyed)
    ensures
        rank_class(s, e).to_multiset().count(e) == s.to_multiset().count(e),
    decreases s.len(),
{
    broadcast use vstd::seq_lib::group_to_multiset_ensures;

    if s.len() == 0 {
        assert(s =~= Seq::<Keyed>::empty());
    } else {
        lemma_rank_class_count(s.drop_last(), e);
        assert(s =~= s.drop_last().push(s.last()));
        lemma_text_before_irreflexive(e.key);
    }
}

/// Putting the entries in order loses none and adds none.
pub proof fn law_listing_is_permutation(from: Seq<Keyed>, to: Seq<Keyed>)
    requires
        is_stable_sort(from, to),
    ensures
        to.to_multiset() == from.to_multiset(),
{
    assert forall|e: Keyed|
        to.to_multiset().count(e) == #[trigger] from.to_multiset().count(e) by {
        lemma_rank_class_count(to, e);
        lemma_rank_class_count(from, e);
        assert(rank_class(to, e) == rank_class(from, e));
    }
    assert(to.to_multiset() =~= from.to_multiset());
}

/// Tells whether a name is hidden.
fn hidden(name: &str) -> (r: bool)
    ensures
        r == is_hidden(name@),
{
    let mut chars = name.chars();
    match chars.next() {
        Some(c) => c == '.',
        None => false,
    }
}

/// The moment that is shown of an item.
pub fn shown_time(created: Option<Timestamp>, modified: Option<Timestamp>) -> (r: Option<
    Timestamp,
>)
    ensures
        moment_view(r) == shown_moment(moment_view(created), moment_view(modified)),
{
    match created {
        Some(t) => Some(t),
        None => modified,
    }
}

/// Tells whether an item with this name is listed.
pub fn accepts(show_hidden: bool, name: &str, path: &UnixPath, is_dir: bool) -> (r: bool)
    ensures
        r == is_listed(show_hidden, name@, path@, is_dir),
{
    (show_hidden || !hidden(name)) && (is_dir || is_audio(path))
}

/// Tells whether an entry with the first key ranks before one with the second.
pub fn ranks_first(a_is_dir: bool, a_key: &str, b_is_dir: bool, b_key: &str) -> (r: bool)
    ensures
        r == ranks_before(a_is_dir, a_key@, b_is_dir, b_key@),
{
    if a_is_dir != b_is_dir {
        a_is_dir
    } else {
        precedes(a_key, b_key)
    }
}

/// Puts an entry with its key in its place, behind the entries of its rank, and
/// returns the place.
pub fn insert_entry(
    entries: &mut Vec<Entry>,
    keys: &mut Vec<String>,
    e: Entry,
    key: String,
) -> (p: usize)
    requires
        old(entries)@.len() == old(keys)@.len(),
        in_order(keyed(entry_views(old(entries)@), text_views(old(keys)@))),
    ensures
        final(entries)@.len() == final(keys)@.len(),
        ({
            let before = keyed(entry_views(old(entries)@), text_views(old(keys)@));
            let x = Keyed { entry: e@, key: key@ };
            &&& p <= before.len()
            &&& forall|i: int| 0 <= i < p ==> !entry_before(x, #[trigger] before[i])
            &&& forall|i: int| p <= i < before.len() ==> entry_before(x, #[trigger] before[i])
            &&& keyed(entry_views(final(entries)@), text_views(final(keys)@)) == before.insert(
                p as int,
                x,
            )
        }),
{
    let ghost s = keyed(entry_views(entries@), text_views(keys@));
    let ghost x = Keyed { entry: e@, key: key@ };
    let mut lo: usize = 0;
    let mut hi: usize = entries.len();
    while lo < hi
        invariant
            lo <= hi <= entries@.len(),
            entries@.len() == keys@.len(),
            s == keyed(entry_views(entries@), text_views(keys@)),
            x == (Keyed { entry: e@, key: key@ }),
            in_order(s),
            forall|i: int| 0 <= i < lo ==> !entry_before(x, #[trigger] s[i]),
            forall|i: int| hi <= i < s.len() ==> entry_before(x, #[trigger] s[i]),
        decreases hi - lo,
    {
        let mid: usize = lo + (hi - lo) / 2;
        let ghost middle = s[mid as int];
        assert(middle == (Keyed { entry: entries@[mid as int]@, key: keys@[mid as int]@ }));
        if ranks_first(e.is_dir, key.as_str(), entries[mid].is_dir, keys[mid].as_str()) {
            assert forall|i: int| mid <= i < s.len() implies entry_before(x, #[trigger] s[i]) by {
                if i > mid {
                    lemma_entry_order(x, middle, s[i]);
                }
            }
            hi = mid;
        } else {
            assert forall|i: int| 0 <= i < mid + 1 implies !entry_before(x, #[trigger] s[i]) by {
                if i < mid && entry_before(x, s[i]) {
                    lemma_entry_order(x, s[i], middle);
                }
            }
            lo = mid + 1;
        }
    }
    entries.insert(lo, e);
    keys.insert(lo, key);
    assert(keyed(entry_views(entries@), text_views(keys@)) =~= s.insert(lo as int, x));
    lo
}

/// The listing of a directory: what is listed of its items, ordered by name.
pub fn list_entries(show_hidden: bool, items: &Vec<DirItem>) -> (r: Vec<Entry>)
    ensures
        is_stable_sort(
            by_name(listed_entries(show_hidden, item_views(items@))),
            by_name(entry_views(r@)),
        ),
{
    let mut entries: Vec<Entry> = Vec::new();
    let mut keys: Vec<String> = Vec::new();
    let ghost all = item_views(items@);
    assert(all.take(0) =~= Seq::<DirItemView>::empty());
    assert(by_name(entry_views(entries@)) =~= by_name(listed_entries(show_hidden, all.take(0))));
    let mut i: usize = 0;
    while i < items.len()
        invariant
            i <= items@.len(),
            all == item_views(items@),
            entries@.len() == keys@.len(),
            keyed(entry_views(entries@), text_views(keys@)) == by_name(entry_views(entries@)),
            is_stable_sort(
                by_name(listed_entries(show_hidden, all.take(i as int))),
                by_name(entry_views(entries@)),
            ),
        decreases items@.len() - i,
    {
        let item = &items[i];
        let name = show_bytes(item.file_name.as_slice());
        let ghost listed = listed_entries(show_hidden, all.take(i as int));
        let ghost before = by_name(entry_views(entries@));
        assert(all.take(i + 1).drop_last() =~= all.take(i as int));
        assert(all.take(i + 1).last() == item@);
        if accepts(show_hidden, name.as_str(), &item.path, item.is_dir) {
            let key = fold_case(name.as_str());
            let entry = Entry {
                name,
                path: item.path.clone(),
                is_dir: item.is_dir,
                created: shown_time(item.created, item.modified),
                duration: None,
                duration_pending: !item.is_dir,
            };
            let ghost x = name_keyed(entry@);
            assert(entry@ == entry_for(item@));
            let p = insert_entry(&mut entries, &mut keys, entry, key);
            proof {
                lemma_insert(by_name(listed), before, x, p as int);
                assert(by_name(listed.push(entry_for(item@))) =~= by_name(listed).push(x));
                let after = keyed(entry_views(entries@), text_views(keys@));
                assert(after == before.insert(p as int, x));
                assert forall|j: int| 0 <= j < after.len() implies #[trigger] after[j]
                    == name_keyed(entry_views(entries@)[j]) by {
                    assert(after[j].entry == entry_views(entries@)[j]);
                    if j < p {
                        assert(after[j] == before[j]);
                    } else if j > p {
                        assert(after[j] == before[j - 1]);
                    }
                }
                assert(after =~= by_name(entry_views(entries@)));
            }
        }
        i = i + 1;
    }
    assert(all.take(items@.len() as int) =~= all);
    entries
}

/// The first entry from position `i` on that has the path.
pub open spec fn find_path(s: Seq<EntryView>, path: Seq<u8>, i: int) -> Option<int>
    decreases s.len() - i,
{
    if i >= s.len() {
        None
    } else if same_path(s[i].path, path) {
        Some(i)
    } else {
        find_path(s, path, i + 1)
    }
}

/// The first file from position `i` on.
pub open spec fn find_file(s: Seq<EntryView>, i: int) -> Option<int>
    decreases s.len() - i,
{
    if i >= s.len() {
        None
    } else if !s[i].is_dir {
        Some(i)
    } else {
        find_file(s, i + 1)
    }
}

/// The paths of the files, in the order of the listing.
pub open spec fn file_paths(s: Seq<EntryView>) -> Seq<Seq<u8>>
    decreases s.len(),
{
    if s.len() == 0 {
        Seq::empty()
    } else if s.last().is_dir {
        file_paths(s.drop_last())
    } else {
        file_paths(s.drop_last()).push(s.last().path)
    }
}

/// What the paths of a vector hold.
pub open spec fn path_views(v: Seq<UnixPath>) -> Seq<Seq<u8>> {
    Seq::new(v.len(), |i: int| v[i]@)
}

/// The search for a path finds the first entry that has it, and fails only
/// where none has.
pub proof fn law_find_path_is_first(s: Seq<EntryView>, path: Seq<u8>, i: int)
    requires
        0 <= i,
    ensures
        match find_path(s, path, i) {
            Some(k) => i <= k < s.len() && same_path(s[k].path, path) && forall|j: int|
                i <= j < k ==> !same_path(#[trigger] s[j].path, path),
            None => forall|j: int| i <= j < s.len() ==> !same_path(#[trigger] s[j].path, path),
        },
    decreases s.len() - i,
{
    if i < s.len() && !same_path(s[i].path, path) {
        law_find_path_is_first(s, path, i + 1);
    }
}

/// The search for a file finds the first one, and fails only where there are
/// only directories.
pub proof fn law_find_file_is_first(s: Seq<EntryView>, i: int)
    requires
        0 <= i,
    ensures
        match find_file(s, i) {
            Some(k) => i <= k < s.len() && !s[k].is_dir && forall|j: int|
                i <= j < k ==> (#[trigger] s[j]).is_dir,
            None => forall|j: int| i <= j < s.len() ==> (#[trigger] s[j]).is_dir,
        },
    decreases s.len() - i,
{
    if i < s.len() && s[i].is_dir {
        law_find_file_is_first(s, i + 1);
    }
}

/// Finds the first entry that has the path.
pub fn find_entry(entries: &Vec<Entry>, path: &UnixPath) -> (r: Option<usize>)
    ensures
        match r {
            Some(k) => k < entries.len() && find_path(entry_views(entries@), path@, 0) == Some(
                k as int,
            ),
            None => find_path(entry_views(entries@), path@, 0) is None,
        },
{
    let ghost s = entry_views(entries@);
    let mut i: usize = 0;
    while i < entries.len()
        invariant
            i <= entries@.len(),
            s == entry_views(entries@),
            find_path(s, path@, 0) == find_path(s, path@, i as int),
        decreases entries@.len() - i,
    {
        assert(s[i as int] == entries@[i as int]@);
        if entries[i].path.same_as(path) {
            return Some(i);
        }
        i = i + 1;
    }
    None
}

/// Finds the first file from a position on.
pub fn next_file(entries: &Vec<Entry>, start: usize) -> (r: Option<usize>)
    ensures
        match r {
            Some(k) => k < entries@.len() && find_file(entry_views(entries@), start as int)
                == Some(k as int),
            None => find_file(entry_views(entries@), start as int) is None,
        },
{
    let ghost s = entry_views(entries@);
    let mut i: usize = start;
    while i < entries.len()
        invariant
            s == entry_views(entries@),
            find_file(s, start as int) == find_file(s, i as int),
        decreases entries@.len() - i,
    {
        assert(s[i as int] == entries@[i as int]@);
        if !entries[i].is_dir {
            return Some(i);
        }
        i = i + 1;
    }
    None
}

/// The paths of the files of a listing.
pub fn files_of(entries: &Vec<Entry>) -> (r: Vec<UnixPath>)
    ensures
        path_views(r@) == file_paths(entry_views(entries@)),
{
    let ghost s = entry_views(entries@);
    let mut files: Vec<UnixPath> = Vec::new();
    let mut i: usize = 0;
    assert(path_views(files@) =~= file_paths(s.take(0)));
    while i < entries.len()
        invariant
            i <= entries@.len(),
            s == entry_views(entries@),
            path_views(files@) == file_paths(s.take(i as int)),
        decreases entries@.len() - i,
    {
        assert(s.take(i + 1).drop_last() =~= s.take(i as int));
        assert(s.take(i + 1).last() == entries@[i as int]@);
        if !entries[i].is_dir {
            let ghost before = files@;
            let path = entries[i].path.clone();
            files.push(path);
            assert(path_views(files@) =~= path_views(before).push(path@));
        }
        i = i + 1;
    }
    assert(s.take(entries@.len() as int) =~= s);
    files
}

/// An item that is to be shown: a directory or an audio file, and unless hidden
/// ones are wanted one whose name does not start with a dot.
pub open spec fn shows_item(show_hidden: bool, item: DirItemView) -> bool {
    &&& item.is_dir || is_audio_path(item.path)
    &&& shown_text(item.file_name).len() > 0 && shown_text(item.file_name)[0] == '.' ==> show_hidden
}

/// The row of an item: its name, path and kind, and when it was created or else
/// modified. A file waits for its length, and no length is known yet.
pub open spec fn is_row_of(e: EntryView, item: DirItemView) -> bool {
    &&& e.name == shown_text(item.file_name)
    &&& e.path == item.path
    &&& e.is_dir <==> item.is_dir
    &&& item.created is Some ==> e.created == item.created
    &&& item.created is None ==> e.created == item.modified
    &&& e.duration is None
    &&& e.duration_pending <==> !item.is_dir
}

/// The order of two rows, the first for the item `p` and the second for the item
/// `q`: directories come first, then names go by the dictionary whatever their
/// case, and names that are equal so far go by the order of the items.
pub open spec fn is_row_above(a: EntryView, p: int, b: EntryView, q: int) -> bool {
    if a.is_dir == b.is_dir {
        ||| text_before(caseless(a.name), caseless(b.name))
        ||| caseless(a.name) == caseless(b.name) && p < q
    } else {
        a.is_dir
    }
}

/// The rows are those of the items to be shown, each once, in their order: row
/// `i` is that of the item `from[i]`.
pub open spec fn is_listing_of(
    show_hidden: bool,
    items: Seq<DirItemView>,
    rows: Seq<EntryView>,
    from: Seq<int>,
) -> bool {
    &&& from.len() == rows.len()
    &&& forall|i: int|
        0 <= i < rows.len() ==> {
            &&& 0 <= #[trigger] from[i] < items.len()
            &&& shows_item(show_hidden, items[from[i]])
            &&& is_row_of(rows[i], items[from[i]])
        }
    &&& forall|k: int|
        0 <= k < items.len() && shows_item(show_hidden, #[trigger] items[k]) ==> from.contains(k)
    &&& forall|i: int, j: int|
        0 <= i < j < rows.len() ==> is_row_above(
            rows[i],
            #[trigger] from[i],
            rows[j],
            #[trigger] from[j],
        )
}

proof fn lemma_place(s: Seq<Keyed>, x: Keyed) -> (p: int)
    requires
        in_order(s),
    ensures
        0 <= p <= s.len(),
        forall|i: int| 0 <= i < p ==> !entry_before(x, #[trigger] s[i]),
        forall|i: int| p <= i < s.len() ==> entry_before(x, #[trigger] s[i]),
    decreases s.len(),
{
    if s.len() == 0 || !entry_before(x, s.last()) {
        assert forall|i: int| 0 <= i < s.len() implies !entry_before(x, #[trigger] s[i]) by {
            if i < s.len() - 1 && entry_before(x, s[i]) {
                assert(!entry_before(s[s.len() - 1], s[i]));
                lemma_entry_order(x, s[i], s.last());
            }
        }
        s.len() as int
    } else {
        let rest = s.drop_last();
        assert forall|i: int, j: int| 0 <= i < j < rest.len() implies !entry_before(
            rest[j],
            rest[i],
        ) by {
            assert(!entry_before(s[j], s[i]));
        }
        let p = lemma_place(rest, x);
        assert forall|i: int| 0 <= i < p implies !entry_before(x, #[trigger] s[i]) by {
            assert(rest[i] == s[i]);
        }
        assert forall|i: int| p <= i < s.len() implies entry_before(x, #[trigger] s[i]) by {
            if i < s.len() - 1 {
                assert(rest[i] == s[i]);
            }
        }
        p
    }
}

proof fn lemma_row_above(a: EntryView, p: int, b: EntryView, q: int)
    requires
        !entry_before(name_keyed(b), name_keyed(a)),
        same_rank(name_keyed(a), name_keyed(b)) ==> p < q,
    ensures
        is_row_above(a, p, b, q),
{
    lemma_text_before_total(caseless(a.name), caseless(b.name));
}

proof fn lemma_listing(show_hidden: bool, items: Seq<DirItemView>) -> (r: (
    Seq<EntryView>,
    Seq<int>,
))
    ensures
        is_stable_sort(by_name(listed_entries(show_hidden, items)), by_name(r.0)),
        is_listing_of(show_hidden, items, r.0, r.1),
    decreases items.len(),
{
    if items.len() == 0 {
        let (rows, from) = (Seq::<EntryView>::empty(), Seq::<int>::empty());
        assert(by_name(listed_entries(show_hidden, items)) =~= by_name(rows));
        (rows, from)
    } else {
        let before = items.drop_last();
        let item = items.last();
        let n = items.len() - 1;
        let listed = listed_entries(show_hidden, before);
        let (rows, from) = lemma_listing(show_hidden, before);
        assert forall|i: int| 0 <= i < rows.len() implies 0 <= #[trigger] from[i] < n
            && items[from[i]] == before[from[i]] by {}
        if !shows_item(show_hidden, item) {
            assert forall|k: int|
                0 <= k < items.len() && shows_item(
                    show_hidden,
                    #[trigger] items[k],
                ) implies from.contains(k) by {
                assert(before[k] == items[k]);
            }
            (rows, from)
        } else {
            let e = entry_for(item);
            let x = name_keyed(e);
            let p = lemma_place(by_name(rows), x);
            lemma_insert(by_name(listed), by_name(rows), x, p);
            let (out, at) = (rows.insert(p, e), from.insert(p, n));
            assert(by_name(listed.push(e)) =~= by_name(listed).push(x));
            assert(by_name(out) =~= by_name(rows).insert(p, x));
            lemma_insert_row(show_hidden, items, rows, from, p);
            (out, at)
        }
    }
}

proof fn lemma_insert_row(
    show_hidden: bool,
    items: Seq<DirItemView>,
    rows: Seq<EntryView>,
    from: Seq<int>,
    p: int,
)
    requires
        items.len() > 0,
        shows_item(show_hidden, items.last()),
        is_listing_of(show_hidden, items.drop_last(), rows, from),
        0 <= p <= rows.len(),
        forall|i: int|
            0 <= i < p ==> !entry_before(
                name_keyed(entry_for(items.last())),
                #[trigger] by_name(rows)[i],
            ),
        forall|i: int|
            p <= i < rows.len() ==> entry_before(
                name_keyed(entry_for(items.last())),
                #[trigger] by_name(rows)[i],
            ),
    ensures
        is_listing_of(
            show_hidden,
            items,
            rows.insert(p, entry_for(items.last())),
            from.insert(p, items.len() - 1),
        ),
{
    let before = items.drop_last();
    let n = items.len() - 1;
    let e = entry_for(items.last());
    let (out, at) = (rows.insert(p, e), from.insert(p, n));
    assert forall|k: int| 0 <= k < rows.len() implies #[trigger] from[k] < n by {}
    assert forall|i: int| 0 <= i < out.len() implies {
        &&& 0 <= #[trigger] at[i] < items.len()
        &&& shows_item(show_hidden, items[at[i]])
        &&& is_row_of(out[i], items[at[i]])
    } by {
        if i < p {
            assert(at[i] == from[i]);
        } else if i > p {
            assert(at[i] == from[i - 1]);
        }
    }
    assert forall|k: int|
        0 <= k < items.len() && shows_item(show_hidden, #[trigger] items[k]) implies at.contains(
        k,
    ) by {
        if k == n {
            assert(at[p] == n);
        } else {
            assert(before[k] == items[k]);
            let i = choose|i: int| 0 <= i < from.len() && from[i] == k;
            if i < p {
                assert(at[i] == k);
            } else {
                assert(at[i + 1] == k);
            }
        }
    }
    assert forall|i: int, j: int| 0 <= i < j < out.len() implies is_row_above(
        out[i],
        #[trigger] at[i],
        out[j],
        #[trigger] at[j],
    ) by {
        lemma_insert_row_order(rows, from, e, n, p, i, j);
    }
}

proof fn lemma_insert_row_order(
    rows: Seq<EntryView>,
    from: Seq<int>,
    e: EntryView,
    n: int,
    p: int,
    i: int,
    j: int,
)
    requires
        from.len() == rows.len(),
        0 <= p <= rows.len(),
        0 <= i < j < rows.len() + 1,
        forall|k: int| 0 <= k < rows.len() ==> #[trigger] from[k] < n,
        forall|a: int, b: int|
            0 <= a < b < rows.len() ==> is_row_above(
                rows[a],
                #[trigger] from[a],
                rows[b],
                #[trigger] from[b],
            ),
        forall|k: int|
            0 <= k < p ==> !entry_before(name_keyed(e), #[trigger] by_name(rows)[k]),
        forall|k: int|
            p <= k < rows.len() ==> entry_before(name_keyed(e), #[trigger] by_name(rows)[k]),
    ensures
        is_row_above(
            rows.insert(p, e)[i],
            from.insert(p, n)[i],
            rows.insert(p, e)[j],
            from.insert(p, n)[j],
        ),
{
    if i == p {
        assert(by_name(rows)[j - 1] == name_keyed(rows[j - 1]));
        lemma_entry_asymmetric(name_keyed(e), name_keyed(rows[j - 1]));
        lemma_row_above(e, n, rows[j - 1], from[j - 1]);
    } else if j == p {
        assert(by_name(rows)[i] == name_keyed(rows[i]));
        assert(from[i] < n);
        lemma_row_above(rows[i], from[i], e, n);
    } else {
        let a = if i < p {
            i
        } else {
            i - 1
        };
        let b = if j < p {
            j
        } else {
            j - 1
        };
        assert(is_row_above(rows[a], from[a], rows[b], from[b]));
    }
}

/// A listing has a row for each item that is to be shown and no others, each
/// once, and the rows stand in their order.
pub proof fn law_listing_shows_items(
    show_hidden: bool,
    items: Seq<DirItemView>,
    rows: Seq<EntryView>,
) -> (from: Seq<int>)
    requires
        is_stable_sort(by_name(listed_entries(show_hidden, items)), by_name(rows)),
    ensures
        is_listing_of(show_hidden, items, rows, from),
{
    let (expected, from) = lemma_listing(show_hidden, items);
    law_listing_is_unique(
        by_name(listed_entries(show_hidden, items)),
        by_name(rows),
        by_name(expected),
    );
    assert(by_name(rows).len() == rows.len() && by_name(expected).len() == expected.len());
    assert forall|i: int| 0 <= i < rows.len() implies rows[i] == expected[i] by {
        assert(by_name(rows)[i].entry == rows[i]);
        assert(by_name(expected)[i].entry == expected[i]);
    }
    assert(rows =~= expected);
    from
}

/// An item by itself is listed exactly where it is to be shown.
pub proof fn law_item_is_listed(show_hidden: bool, item: DirItemView)
    ensures
        is_listed(show_hidden, shown_text(item.file_name), item.path, item.is_dir) <==> shows_item(
            show_hidden,
            item,
        ),
        is_row_of(entry_for(item), item),
{
}

/// Of two entries with keys the first ranks before the second exactly where it
/// alone is a directory, or both are of one kind and its key comes first.
pub proof fn law_rank(a_is_dir: bool, a_key: Seq<char>, b_is_dir: bool, b_key: Seq<char>)
    ensures
        a_is_dir && !b_is_dir ==> ranks_before(a_is_dir, a_key, b_is_dir, b_key),
        !a_is_dir && b_is_dir ==> !ranks_before(a_is_dir, a_key, b_is_dir, b_key),
        a_is_dir == b_is_dir ==> (ranks_before(a_is_dir, a_key, b_is_dir, b_key) <==> text_before(
            a_key,
            b_key,
        )),
{
}

/// The paths of the files are those of the rows that are no directories, in
/// their order.
pub proof fn law_files_are_those_listed(rows: Seq<EntryView>)
    ensures
        file_paths(rows) == rows.filter(|e: EntryView| !e.is_dir).map_values(
            |e: EntryView| e.path,
        ),
    decreases rows.len(),
{
    reveal(Seq::filter);
    let is_file = |e: EntryView| !e.is_dir;
    let path = |e: EntryView| e.path;
    if rows.len() > 0 {
        law_files_are_those_listed(rows.drop_last());
        let rest = rows.drop_last().filter(is_file);
        assert(rest.push(rows.last()).map_values(path) =~= rest.map_values(path).push(
            rows.last().path,
        ));
    } else {
        assert(rows.filter(is_file).map_values(path) =~= Seq::<Seq<u8>>::empty());
    }
}

} // verus!
