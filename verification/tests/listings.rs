use tunes::listing::{
    accepts, files_of, find_entry, insert_entry, list_entries, next_file,
    ranks_first, shown_time, DirItem, Entry,
};
use tunes::path::UnixPath;
use tunes::text::{fold_case, precedes, show_bytes};
use tunes::time::{fmt_created, Timestamp};

fn path(s: &str) -> UnixPath {
    UnixPath::new(s.as_bytes().to_vec())
}

fn item(name: &str, is_dir: bool) -> DirItem {
    DirItem {
        file_name: name.as_bytes().to_vec(),
        path: path(&format!("/m/{}", name)),
        is_dir,
        created: None,
        modified: None,
    }
}

fn names(entries: &Vec<Entry>) -> Vec<String> {
    entries.iter().map(|e| e.name.clone()).collect()
}

#[test]
fn directories_come_first_and_names_ignore_case() {
    let items = vec![
        item("b.mp3", false),
        item("Zeta", true),
        item("A.mp3", false),
        item("alpha", true),
        item("C.flac", false),
    ];
    assert_eq!(
        names(&list_entries(false, &items)),
        vec!["alpha", "Zeta", "A.mp3", "b.mp3", "C.flac"]
    );
}

#[test]
fn names_of_the_same_rank_keep_their_order() {
    let items = vec![item("A.mp3", false), item("b.mp3", false), item("a.mp3", false)];
    assert_eq!(names(&list_entries(false, &items)), vec!["A.mp3", "a.mp3", "b.mp3"]);
    let items = vec![item("a.mp3", false), item("b.mp3", false), item("A.mp3", false)];
    assert_eq!(names(&list_entries(false, &items)), vec!["a.mp3", "A.mp3", "b.mp3"]);
}

#[test]
fn lower_case_is_that_of_unicode() {
    let items = vec![item("\u{e4}.mp3", false), item("\u{c4}a.mp3", false), item("z.mp3", false)];
    assert_eq!(
        names(&list_entries(false, &items)),
        vec!["z.mp3", "\u{e4}.mp3", "\u{c4}a.mp3"]
    );
}

#[test]
fn ascii_capitals_are_made_small() {
    let all: String = (0u8..128).map(char::from).collect();
    assert_eq!(fold_case(&all), all.to_ascii_lowercase());
    assert_eq!(fold_case("Mix-01 [B].MP3"), "mix-01 [b].mp3");
    assert_eq!(fold_case("\u{c4}A"), "\u{e4}a");
}

#[test]
fn utf8_is_shown_as_its_characters() {
    for s in ["", "a", "one.mp3", "\u{e4}\u{20ac}\u{1d11e}"] {
        assert_eq!(show_bytes(s.as_bytes()), s);
        assert_eq!(list_entries(true, &vec![item(s, true)])[0].name, s);
    }
    assert_eq!(show_bytes(&[0x61, 0xff]), "a\u{fffd}");
}

#[test]
fn what_is_no_audio_is_left_out() {
    let items = vec![item("notes.txt", false), item("d.mp3", true), item("e.mp3", false)];
    assert_eq!(names(&list_entries(false, &items)), vec!["d.mp3", "e.mp3"]);
}

#[test]
fn hidden_entries_are_shown_on_demand() {
    let items = vec![item(".x.mp3", false), item(".git", true), item("y.mp3", false)];
    assert_eq!(names(&list_entries(false, &items)), vec!["y.mp3"]);
    assert_eq!(names(&list_entries(true, &items)), vec![".git", ".x.mp3", "y.mp3"]);
}

#[test]
fn names_that_are_no_utf8_are_shown_with_replacements() {
    let items = vec![DirItem {
        file_name: vec![0xff, b'.', b'm', b'p', b'3'],
        path: UnixPath::new(vec![b'/', 0xff, b'.', b'm', b'p', b'3']),
        is_dir: false,
        created: None,
        modified: None,
    }];
    assert_eq!(names(&list_entries(false, &items)), vec!["\u{fffd}.mp3"]);
}

#[test]
fn fresh_files_await_their_length() {
    let mut it = item("a.mp3", false);
    it.created = Timestamp::new(60, 0);
    let entries = list_entries(false, &vec![it, item("d", true)]);
    assert!(!entries[0].duration_pending && entries[0].created.is_none());
    assert!(entries[1].duration_pending && entries[1].created.is_some());
    assert!(entries[0].duration.is_none() && entries[1].duration.is_none());
}

#[test]
fn creation_is_shown_and_else_modification() {
    let mut both = item("a.mp3", false);
    both.created = Timestamp::new(0, 0);
    both.modified = Timestamp::new(86_400 * 400, 0);
    let mut changed = item("b.mp3", false);
    changed.modified = Timestamp::new(86_400 * 400, 0);
    let entries = list_entries(false, &vec![both, changed, item("c.mp3", false)]);
    assert_eq!(fmt_created(entries[0].created), fmt_created(Timestamp::new(0, 0)));
    assert_eq!(fmt_created(entries[1].created), fmt_created(Timestamp::new(86_400 * 400, 0)));
    assert!(entries[2].created.is_none());
    assert!(shown_time(None, None).is_none());
}

#[test]
fn many_items_are_put_in_order() {
    let mut items: Vec<DirItem> = Vec::new();
    for i in 0..200u32 {
        items.push(item(&format!("{:03}.mp3", (i * 67) % 200), false));
    }
    let listed = names(&list_entries(false, &items));
    let expected: Vec<String> = (0..200u32).map(|i| format!("{:03}.mp3", i)).collect();
    assert_eq!(listed, expected);
}

#[test]
fn searches_find_the_first() {
    let entries = list_entries(
        false,
        &vec![item("d", true), item("e", true), item("a.mp3", false), item("b.mp3", false)],
    );
    assert_eq!(find_entry(&entries, &path("/m//a.mp3")), Some(2));
    assert_eq!(find_entry(&entries, &path("/m/none")), None);
    assert_eq!(next_file(&entries, 0), Some(2));
    assert_eq!(next_file(&entries, 3), Some(3));
    assert_eq!(next_file(&entries, 4), None);
    let files = files_of(&entries);
    assert_eq!(files.len(), 2);
    assert_eq!(files[0].bytes().as_slice(), b"/m/a.mp3");
    assert_eq!(files[1].bytes().as_slice(), b"/m/b.mp3");
}

#[test]
fn acceptance_goes_by_name_and_kind() {
    assert!(accepts(false, "a.mp3", &path("a.mp3"), false));
    assert!(!accepts(false, ".a.mp3", &path(".a.mp3"), false));
    assert!(accepts(true, ".a.mp3", &path(".a.mp3"), false));
    assert!(accepts(false, "dir", &path("dir"), true));
    assert!(!accepts(true, "dir", &path("dir"), false));
    assert!(accepts(false, "", &path("x.ogg"), false));
}

#[test]
fn rank_is_kind_and_then_key() {
    assert!(ranks_first(true, "z", false, "a"));
    assert!(!ranks_first(false, "a", true, "z"));
    assert!(ranks_first(false, "a", false, "b"));
    assert!(!ranks_first(true, "a", true, "a"));
}

#[test]
fn dictionary_order_agrees_with_std() {
    let words = ["", "a", "aa", "ab", "b", "\u{e4}", "\u{ffff}", "\u{10000}", "a\u{10000}"];
    for a in words {
        for b in words {
            assert_eq!(precedes(a, b), a < b, "{:?} {:?}", a, b);
        }
    }
}

#[test]
fn entry_goes_behind_those_of_its_rank() {
    let mut entries: Vec<Entry> = Vec::new();
    let mut keys: Vec<String> = Vec::new();
    let mut places: Vec<usize> = Vec::new();
    for (name, is_dir, key) in
        [("1", false, "b"), ("2", false, "a"), ("3", false, "b"), ("4", true, "z"), ("5", false, "c")]
    {
        let entry = Entry {
            name: name.to_string(),
            path: path(name),
            is_dir,
            created: None,
            duration: None,
            duration_pending: false,
        };
        places.push(insert_entry(&mut entries, &mut keys, entry, key.to_string()));
    }
    assert_eq!(places, vec![0, 0, 2, 0, 4]);
    assert_eq!(names(&entries), vec!["4", "2", "1", "3", "5"]);
    assert_eq!(keys, vec!["z", "a", "b", "b", "c"]);
}
