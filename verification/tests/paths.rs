use std::path::Path;
use tunes::path::{audio_extension, extension, is_audio, UnixPath};

fn path(s: &str) -> UnixPath {
    UnixPath::new(s.as_bytes().to_vec())
}

const SAMPLES: [&str; 40] = [
    "", "/", "//", ".", "./", "..", "../", "a", "a/", "a//", "/a", "//a", "/a/", "a/b", "a//b",
    "a/b/", "a/./b", "a/b/.", "a/b/..", "./a", "./a/b", "././a", "./.", "/.", "/./a", "/..",
    ".x", ".x/a", "..x/a", "a/.x", "/music/one.mp3", "/music/one.mp3/", "/music/.mp3",
    "/music/..mp3", "/music/a.b.c", "/music/end.", "...", "a/...", "/a/b/../c", "x/./../y",
];

#[test]
fn parent_agrees_with_std() {
    for s in SAMPLES {
        let ours = path(s).parent().map(|p| p.bytes().clone());
        let std = Path::new(s).parent().map(|p| p.to_str().unwrap().as_bytes().to_vec());
        assert_eq!(ours, std, "parent of {:?}", s);
    }
}

#[test]
fn file_name_agrees_with_std() {
    for s in SAMPLES {
        let ours = path(s).file_name().cloned();
        let std = Path::new(s).file_name().map(|n| n.to_str().unwrap().as_bytes().to_vec());
        assert_eq!(ours, std, "file name of {:?}", s);
    }
}

#[test]
fn extension_agrees_with_std() {
    for s in SAMPLES {
        let p = path(s);
        let ours = p.file_name().and_then(extension);
        let std = Path::new(s).extension().map(|n| n.to_str().unwrap().as_bytes().to_vec());
        assert_eq!(ours, std, "extension of {:?}", s);
    }
}

#[test]
fn comparison_agrees_with_std() {
    for a in SAMPLES {
        for b in SAMPLES {
            assert_eq!(path(a).same_as(&path(b)), Path::new(a) == Path::new(b), "{:?} {:?}", a, b);
        }
    }
}

#[test]
fn parent_drops_the_last_component() {
    let p = path("/music//albums/./one/").parent().unwrap();
    assert_eq!(p.bytes().as_slice(), b"/music//albums");
    assert!(p.same_as(&path("/music/albums")));
    assert!(p.parent().unwrap().parent().unwrap().parent().is_none());
}

#[test]
fn joining_adds_a_component() {
    for s in SAMPLES {
        for name in ["x", "..", ".x", "one.mp3"] {
            let joined = path(Path::new(s).join(name).to_str().unwrap());
            assert!(joined.parent().unwrap().same_as(&path(s)), "{:?} and {:?}", s, name);
            let last = joined.file_name().cloned();
            let named = if name == ".." { None } else { Some(name.as_bytes().to_vec()) };
            assert_eq!(last, named, "{:?} and {:?}", s, name);
        }
    }
}

#[test]
fn names_tell_paths_apart() {
    for s in SAMPLES {
        let a = path(Path::new(s).join("a").to_str().unwrap());
        let b = path(Path::new(s).join("b").to_str().unwrap());
        assert!(!a.same_as(&b));
        assert!(a.same_as(&path(&format!("{}/", Path::new(s).join("a").to_str().unwrap()))));
    }
}

#[test]
fn clone_keeps_the_bytes() {
    let p = path("a//b/.");
    assert_eq!(p.clone().bytes().as_slice(), b"a//b/.");
}

#[test]
fn display_replaces_what_is_no_utf8() {
    assert_eq!(path("/mus\u{ef}c").display(), "/mus\u{ef}c");
    assert_eq!(UnixPath::new(vec![b'a', 0xff, b'b']).display(), "a\u{fffd}b");
}

#[test]
fn every_listed_extension_is_audio() {
    for e in [
        "mp3", "wav", "flac", "ogg", "oga", "m4a", "aac", "mp4", "opus", "aiff", "aif", "mkv",
        "wma",
    ] {
        assert!(is_audio(&path(&format!("/music/song.{}", e))), "{}", e);
        assert!(is_audio(&path(&format!("song.{}", e.to_ascii_uppercase()))), "{}", e);
    }
}

#[test]
fn other_names_are_not_audio() {
    for s in [
        "", "/", "song", "song.txt", ".mp3", "mp3", "song.mp3.bak", "song.mp", "song.mp33",
        "song.", "..", "song.mp3/..", "song.m\u{fc}3",
    ] {
        assert!(!is_audio(&path(s)), "{:?}", s);
    }
    assert!(is_audio(&path("..mp3")));
    assert!(is_audio(&path("song.MP3/")));
    assert!(!is_audio(&UnixPath::new(vec![b'a', b'.', b'm', b'p', 0xff])));
}

#[test]
fn extension_test_ignores_ascii_case() {
    assert!(audio_extension(&b"FlAc".to_vec()));
    assert!(!audio_extension(&b"".to_vec()));
    assert!(!audio_extension(&b"fla\xe7".to_vec()));
}
