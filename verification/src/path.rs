//! File paths as raw bytes, with the reading that Unix gives them.
use crate::text::{show_bytes, shown_text};
use vstd::prelude::*;

verus! {

/// The byte that separates the segments of a path.
pub const SLASH: u8 = 0x2f;

/// The byte that starts an extension, and alone names the directory itself.
pub const DOT: u8 = 0x2e;

/// The last position at which a byte stands, or -1.
pub open spec fn last_position(s: Seq<u8>, byte: u8) -> int
    decreases s.len(),
{
    if s.len() == 0 {
        -1
    } else if s.last() == byte {
        s.len() - 1
    } else {
        last_position(s.drop_last(), byte)
    }
}

/// The position of the last separator, or -1.
pub open spec fn last_slash(s: Seq<u8>) -> int {
    last_position(s, SLASH)
}

/// What follows the last separator.
pub open spec fn last_segment(s: Seq<u8>) -> Seq<u8> {
    s.skip(last_slash(s) + 1)
}

/// What precedes the last separator; nothing where there is none.
pub open spec fn before_last_segment(s: Seq<u8>) -> Seq<u8> {
    if last_slash(s) < 0 {
        Seq::empty()
    } else {
        s.take(last_slash(s))
    }
}

/// A segment that names no step: an empty one, or a single dot.
pub open spec fn is_noise(segment: Seq<u8>) -> bool {
    segment.len() == 0 || segment == seq![DOT]
}

/// The segments of a path that name a step, in order.
pub open spec fn steps(s: Seq<u8>) -> Seq<Seq<u8>>
    decreases s.len(),
    via steps_decreases
{
    if s.len() == 0 {
        Seq::empty()
    } else if is_noise(last_segment(s)) {
        steps(before_last_segment(s))
    } else {
        steps(before_last_segment(s)).push(last_segment(s))
    }
}

#[via_fn]
proof fn steps_decreases(s: Seq<u8>) {
    lemma_last_position(s, SLASH);
}

/// A path that starts at the root.
pub open spec fn has_root(b: Seq<u8>) -> bool {
    b.len() > 0 && b[0] == SLASH
}

/// A path whose first segment is a single dot.
pub open spec fn leads_with_dot(b: Seq<u8>) -> bool {
    b.len() > 0 && b[0] == DOT && (b.len() == 1 || b[1] == SLASH)
}

/// How many bytes at the start are the root or the leading dot.
pub open spec fn lead_len(b: Seq<u8>) -> int {
    if has_root(b) || leads_with_dot(b) {
        1
    } else {
        0
    }
}

/// The components of a path: the root or the leading dot, if there is one, and
/// then each step. Repeated and trailing separators do not show, nor does a
/// dot in any other place.
pub open spec fn components(b: Seq<u8>) -> Seq<Seq<u8>> {
    if lead_len(b) == 1 {
        seq![b.take(1)] + steps(b.skip(1))
    } else {
        steps(b)
    }
}

/// Two paths are the same when their components are.
pub open spec fn same_path(a: Seq<u8>, b: Seq<u8>) -> bool {
    components(a) == components(b)
}

/// The path up to the end of its last step.
pub open spec fn trimmed(s: Seq<u8>) -> Seq<u8>
    decreases s.len(),
    via trimmed_decreases
{
    if s.len() == 0 {
        s
    } else if is_noise(last_segment(s)) {
        trimmed(before_last_segment(s))
    } else {
        s
    }
}

#[via_fn]
proof fn trimmed_decreases(s: Seq<u8>) {
    lemma_last_position(s, SLASH);
}

/// The path without its last component; there is none of the root and of the
/// empty path.
pub open spec fn parent_of(b: Seq<u8>) -> Option<Seq<u8>> {
    let body = trimmed(b.skip(lead_len(b)));
    if body.len() > 0 {
        Some(b.take(lead_len(b)) + trimmed(before_last_segment(body)))
    } else if leads_with_dot(b) {
        Some(Seq::empty())
    } else {
        None
    }
}

/// The last component, where it names a file or a directory.
pub open spec fn file_name_of(b: Seq<u8>) -> Option<Seq<u8>> {
    let c = components(b);
    if c.len() == 0 || c.last() == seq![SLASH] || c.last() == seq![DOT] || c.last() == seq![
        DOT,
        DOT,
    ] {
        None
    } else {
        Some(c.last())
    }
}

/// The part of a file name behind its last dot; there is none where the only
/// dot is the first byte.
pub open spec fn extension_of(name: Seq<u8>) -> Option<Seq<u8>> {
    let d = last_position(name, DOT);
    if d > 0 {
        Some(name.skip(d + 1))
    } else {
        None
    }
}

/// A byte with the capital letters of ASCII made small.
pub open spec fn lower_ascii(b: u8) -> u8 {
    if 0x41 <= b <= 0x5a {
        (b + 0x20) as u8
    } else {
        b
    }
}

/// The extensions of the files that the player lists.
pub open spec fn audio_extensions() -> Seq<Seq<char>> {
    seq![
        "mp3"@,
        "wav"@,
        "flac"@,
        "ogg"@,
        "oga"@,
        "m4a"@,
        "aac"@,
        "mp4"@,
        "opus"@,
        "aiff"@,
        "aif"@,
        "mkv"@,
        "wma"@,
    ]
}

/// Bytes read as small letters, one character for each byte.
pub open spec fn lower_text(s: Seq<u8>) -> Seq<char> {
    Seq::new(s.len(), |i: int| lower_ascii(s[i]) as char)
}

/// An extension that, in small letters, is one of the list.
pub open spec fn is_audio_extension(extension: Seq<u8>) -> bool {
    audio_extensions().contains(lower_text(extension))
}

/// A path whose file name has such an extension.
pub open spec fn is_audio_path(b: Seq<u8>) -> bool {
    match file_name_of(b) {
        Some(name) => match extension_of(name) {
            Some(extension) => is_audio_extension(extension),
            None => false,
        },
        None => false,
    }
}

proof fn lemma_last_position(s: Seq<u8>, byte: u8)
    ensures
        -1 <= last_position(s, byte) < s.len(),
        last_position(s, byte) >= 0 ==> s[last_position(s, byte)] == byte,
        forall|i: int| last_position(s, byte) < i < s.len() ==> s[i] != byte,
    decreases s.len(),
{
    if s.len() > 0 && s.last() != byte {
        lemma_last_position(s.drop_last(), byte);
        assert forall|i: int| last_position(s, byte) < i < s.len() implies s[i] != byte by {
            if i < s.len() - 1 {
                assert(s[i] == s.drop_last()[i]);
            }
        }
    }
}

/// What is left after trimming is a prefix that is empty or ends in a step, and
/// no step is lost.
proof fn lemma_trimmed(s: Seq<u8>)
    ensures
        trimmed(s).len() <= s.len(),
        trimmed(s) == s.take(trimmed(s).len() as int),
        trimmed(s).len() > 0 ==> !is_noise(last_segment(trimmed(s))),
        steps(trimmed(s)) == steps(s),
    decreases s.len(),
{
    lemma_last_position(s, SLASH);
    if s.len() == 0 {
        assert(s.take(0) =~= s);
    } else if is_noise(last_segment(s)) {
        let p = before_last_segment(s);
        lemma_trimmed(p);
        assert(trimmed(s) =~= s.take(trimmed(s).len() as int));
    } else {
        assert(s.take(s.len() as int) =~= s);
    }
}

/// The rest of a path behind its root or leading dot, up to the end of its last
/// step, splits into what its parent keeps and that step.
proof fn lemma_parent_steps(b: Seq<u8>, n: int)
    requires
        n == lead_len(b),
        trimmed(b.skip(n)).len() > 0,
    ensures
        ({
            let q = trimmed(before_last_segment(trimmed(b.skip(n))));
            &&& steps(b.skip(n)) == steps(q).push(last_segment(trimmed(b.skip(n))))
            &&& q.len() <= b.len() - n
            &&& forall|i: int| 0 <= i < q.len() ==> q[i] == b[n + i]
            &&& q.len() > 0 ==> !is_noise(last_segment(q))
        }),
{
    let rest = b.skip(n);
    let body = trimmed(rest);
    lemma_trimmed(rest);
    lemma_last_position(body, SLASH);
    let q = trimmed(before_last_segment(body));
    lemma_trimmed(before_last_segment(body));
    assert(forall|i: int| 0 <= i < q.len() ==> q[i] == rest[i]);
}

proof fn lemma_parent_behind_lead(b: Seq<u8>)
    requires
        lead_len(b) == 1,
        trimmed(b.skip(1)).len() > 0,
    ensures
        components(parent_of(b)->0) == components(b).drop_last(),
{
    lemma_parent_steps(b, 1);
    let q = trimmed(before_last_segment(trimmed(b.skip(1))));
    let p = b.take(1) + q;
    assert(p.skip(1) =~= q);
    assert(p.take(1) =~= b.take(1));
    assert(p[0] == b[0]);
    if q.len() > 0 {
        assert(p[1] == b[1]);
    }
    assert(components(p) =~= components(b).drop_last());
}

proof fn lemma_parent_without_lead(b: Seq<u8>)
    requires
        lead_len(b) == 0,
        trimmed(b.skip(0)).len() > 0,
    ensures
        components(parent_of(b)->0) == components(b).drop_last(),
{
    lemma_parent_steps(b, 0);
    assert(b.skip(0) =~= b);
    let q = trimmed(before_last_segment(trimmed(b.skip(0))));
    lemma_last_position(q, SLASH);
    assert(b.take(0) + q =~= q);
    if q.len() == 1 && q[0] == DOT {
        assert(last_segment(q) =~= seq![DOT]);
    }
    assert(lead_len(q) == 0);
    assert(components(q) =~= components(b).drop_last());
}

/// The parent of a path has the components of the path but the last, and a path
/// without a parent has at most one component, the root.
pub proof fn law_parent_drops_last_component(b: Seq<u8>)
    ensures
        match parent_of(b) {
            Some(p) => components(b).len() > 0 && components(p) == components(b).drop_last(),
            None => components(b) == Seq::<Seq<u8>>::empty() || components(b) == seq![seq![SLASH]],
        },
{
    let n = lead_len(b);
    let rest = b.skip(n);
    lemma_trimmed(rest);
    if trimmed(rest).len() > 0 {
        lemma_parent_steps(b, n);
        if n == 1 {
            lemma_parent_behind_lead(b);
        } else {
            assert(rest =~= b);
            lemma_parent_without_lead(b);
        }
    } else {
        assert(steps(rest) =~= Seq::<Seq<u8>>::empty());
        if leads_with_dot(b) {
            assert(components(Seq::<u8>::empty()) =~= components(b).drop_last());
        } else if has_root(b) {
            assert(b.take(1) =~= seq![SLASH]);
            assert(components(b) =~= seq![seq![SLASH]]);
        } else {
            assert(rest =~= b);
        }
    }
}

/// The name of one item of a directory.
pub open spec fn is_item_name(name: Seq<u8>) -> bool {
    name.len() > 0 && name != seq![DOT] && !name.contains(SLASH)
}

/// A directory's path with a separator behind it, unless it is empty or ends in
/// one.
pub open spec fn with_separator(dir: Seq<u8>) -> Seq<u8> {
    if dir.len() == 0 || dir.last() == SLASH {
        dir
    } else {
        dir.push(SLASH)
    }
}

/// The path of the item with that name in a directory.
pub open spec fn joined(dir: Seq<u8>, name: Seq<u8>) -> Seq<u8> {
    with_separator(dir) + name
}

proof fn lemma_steps_append(p: Seq<u8>, name: Seq<u8>)
    requires
        p.len() == 0 || p.last() == SLASH,
        is_item_name(name),
    ensures
        steps(p + name) == steps(p).push(name),
        p.len() > 0 ==> steps(p) == steps(p.drop_last()),
{
    let t = p + name;
    lemma_last_position(t, SLASH);
    lemma_last_position(p, SLASH);
    let l = last_slash(t);
    if l >= p.len() {
        assert(name[l - p.len()] == SLASH);
    }
    if p.len() > 0 {
        assert(t[p.len() - 1] == SLASH);
        assert(before_last_segment(t) =~= p.drop_last());
        assert(before_last_segment(p) =~= p.drop_last());
        assert(last_segment(p).len() == 0);
    } else {
        assert(before_last_segment(t) =~= p);
    }
    assert(last_segment(t) =~= name);
}

/// The path of an item of a directory has the components of the directory and,
/// behind them, the name.
pub proof fn law_joining_adds_component(dir: Seq<u8>, name: Seq<u8>)
    requires
        is_item_name(name),
    ensures
        components(joined(dir, name)) == components(dir).push(name),
{
    let p = with_separator(dir);
    let j = joined(dir, name);
    if lead_len(dir) == 1 {
        assert(j[0] == dir[0]);
        if dir[0] == DOT {
            assert(j[1] == SLASH);
        }
        lemma_steps_append(p.skip(1), name);
        assert(j.skip(1) =~= p.skip(1) + name);
        assert(j.take(1) =~= dir.take(1));
        if p != dir {
            assert(p.skip(1).drop_last() =~= dir.skip(1));
        }
        assert(components(j) =~= components(dir).push(name));
    } else {
        lemma_steps_append(p, name);
        if dir.len() == 0 {
            assert(j =~= name);
            assert(name.contains(name[0]));
            if name.len() == 1 {
                assert(name =~= seq![name[0]]);
            } else {
                assert(name.contains(name[1]));
            }
        } else {
            assert(j[0] == dir[0]);
            if dir.len() > 1 {
                assert(j[1] == dir[1]);
            }
        }
        if p != dir {
            assert(p.drop_last() =~= dir);
        }
    }
}

/// Two items of a directory have different paths when their names differ.
pub proof fn law_names_tell_paths_apart(dir: Seq<u8>, a: Seq<u8>, b: Seq<u8>)
    requires
        is_item_name(a),
        is_item_name(b),
    ensures
        same_path(joined(dir, a), joined(dir, b)) <==> a == b,
{
    law_joining_adds_component(dir, a);
    law_joining_adds_component(dir, b);
    assert(components(dir).push(a).last() == a);
    assert(components(dir).push(b).last() == b);
}

proof fn lemma_steps_separator(s: Seq<u8>)
    ensures
        steps(s.push(SLASH)) == steps(s),
        steps(s.push(SLASH).push(DOT)) == steps(s),
{
    let p = s.push(SLASH);
    lemma_last_position(p, SLASH);
    assert(last_segment(p).len() == 0);
    assert(before_last_segment(p) =~= s);
    let q = p.push(DOT);
    lemma_last_position(q, SLASH);
    assert(q[s.len() as int] == SLASH);
    assert(last_slash(q) == s.len());
    assert(last_segment(q) =~= seq![DOT]);
    assert(before_last_segment(q) =~= s);
}

/// A separator behind a path changes nothing, nor does a separator with a single
/// dot behind it.
pub proof fn law_separators_add_nothing(b: Seq<u8>)
    requires
        b.len() > 0,
    ensures
        components(b.push(SLASH)) == components(b),
        components(b + seq![SLASH, DOT]) == components(b),
{
    let n = lead_len(b);
    let p = b.push(SLASH);
    let q = b + seq![SLASH, DOT];
    lemma_steps_separator(b.skip(n));
    assert(p[0] == b[0] && q[0] == b[0]);
    assert(b.len() == 1 ==> p[1] == SLASH && q[1] == SLASH);
    assert(b.len() > 1 ==> p[1] == b[1] && q[1] == b[1]);
    assert(lead_len(p) == n && lead_len(q) == n);
    assert(p.skip(n) =~= b.skip(n).push(SLASH));
    assert(q.skip(n) =~= b.skip(n).push(SLASH).push(DOT));
    if n == 1 {
        assert(p.take(1) =~= b.take(1));
        assert(q.take(1) =~= b.take(1));
    } else {
        assert(p.skip(0) =~= p);
        assert(q.skip(0) =~= q);
        assert(b.skip(0) =~= b);
    }
}

/// A name behind a separator is one more component; alone it is the only one, and
/// behind the root the second. The empty path has none, and the root and the dot
/// have themselves.
pub proof fn law_names_are_components(b: Seq<u8>, name: Seq<u8>)
    requires
        name.len() > 0,
        name != seq![DOT],
        !name.contains(SLASH),
    ensures
        b.len() > 0 ==> components(b + seq![SLASH] + name) == components(b).push(name),
        components(name) == seq![name],
        components(seq![SLASH] + name) == seq![seq![SLASH], name],
        components(Seq::<u8>::empty()) == Seq::<Seq<u8>>::empty(),
        components(seq![SLASH]) == seq![seq![SLASH]],
        components(seq![DOT]) == seq![seq![DOT]],
{
    let (none, root, dot) = (Seq::<u8>::empty(), seq![SLASH], seq![DOT]);
    assert(components(none) =~= Seq::<Seq<u8>>::empty());
    assert(root.take(1) =~= root && dot.take(1) =~= dot);
    assert(root.skip(1) =~= none && dot.skip(1) =~= none);
    assert(components(root) =~= seq![root]);
    assert(components(dot) =~= seq![dot]);
    law_joining_adds_component(none, name);
    assert(joined(none, name) =~= name);
    assert(components(name) =~= seq![name]);
    law_joining_adds_component(root, name);
    assert(components(root + name) =~= seq![root, name]);
    if b.len() > 0 {
        law_separators_add_nothing(b);
        law_joining_adds_component(b.push(SLASH), name);
        assert(b + root + name =~= b.push(SLASH) + name);
    }
}

/// Paths are the same exactly where their components are.
pub proof fn law_same_paths(a: Seq<u8>, b: Seq<u8>)
    ensures
        same_path(a, b) <==> components(a).len() == components(b).len() && forall|i: int|
            0 <= i < components(a).len() ==> #[trigger] components(a)[i] == components(b)[i],
        same_path(a, b) ==> parent_of(a) is Some == parent_of(b) is Some,
        same_path(a, b) ==> file_name_of(a) == file_name_of(b),
        same_path(a, b) ==> is_audio_path(a) == is_audio_path(b),
{
    if components(a).len() == components(b).len() && forall|i: int|
        0 <= i < components(a).len() ==> #[trigger] components(a)[i] == components(b)[i] {
        assert(components(a) =~= components(b));
    }
    law_parent_is_start_of_path(a);
    law_parent_is_start_of_path(b);
}

proof fn lemma_step_end(q: Seq<u8>)
    requires
        q.len() > 0,
        !is_noise(last_segment(q)),
    ensures
        q.last() != SLASH,
        q.last() == DOT ==> q.len() > 1 && q[q.len() - 2] != SLASH,
{
    lemma_last_position(q, SLASH);
    let l = last_slash(q);
    if q.last() == SLASH {
        assert(l == q.len() - 1);
    }
    if q.last() == DOT && (q.len() == 1 || q[q.len() - 2] == SLASH) {
        assert(last_segment(q) =~= seq![DOT]);
    }
}

/// Only the empty path and the root have no parent. A parent is the start of the
/// path up to the end of a name, or it is at most a single byte: it keeps no
/// separator behind it, nor a separator with a dot.
pub proof fn law_parent_is_start_of_path(b: Seq<u8>)
    ensures
        parent_of(b) is None <==> components(b).len() == 0 || components(b) == seq![seq![SLASH]],
        parent_of(b) matches Some(p) ==> {
            &&& p.len() <= b.len()
            &&& p == b.take(p.len() as int)
            &&& p.len() > 1 ==> p.last() != SLASH && !(p.last() == DOT && p[p.len() - 2] == SLASH)
        },
{
    law_parent_drops_last_component(b);
    let n = lead_len(b);
    let body = trimmed(b.skip(n));
    if body.len() > 0 {
        lemma_parent_steps(b, n);
        lemma_trimmed(b.skip(n));
        lemma_last_position(body, SLASH);
        let q = trimmed(before_last_segment(body));
        let p = b.take(n) + q;
        assert(p =~= b.take(p.len() as int));
        if q.len() > 0 {
            lemma_step_end(q);
            assert(p.last() == q.last());
            if q.len() > 1 {
                assert(p[p.len() - 2] == q[q.len() - 2]);
            }
        }
        let last = last_segment(body);
        assert(components(b).last() == last) by {
            if n == 0 {
                assert(b.skip(0) =~= b);
            }
        }
        if last == seq![SLASH] {
            assert(last[0] == SLASH);
            assert(body[last_slash(body) + 1] == SLASH);
        }
    } else if leads_with_dot(b) {
        assert(components(b)[0] == b.take(1));
        assert(b.take(1)[0] == DOT);
        if components(b) == seq![seq![SLASH]] {
            assert(seq![seq![SLASH]][0] == seq![SLASH]);
            assert(seq![SLASH][0] == SLASH);
        }
        assert(Seq::<u8>::empty() =~= b.take(0));
    }
}

/// The file name is the last component, unless that is the root, a dot or two
/// dots; so it is the name of the item of a directory.
pub proof fn law_file_name_is_last_component(b: Seq<u8>, dir: Seq<u8>, name: Seq<u8>)
    ensures
        file_name_of(b) matches Some(n) ==> components(b).len() > 0 && n == components(b).last(),
        file_name_of(b) is None ==> components(b).len() == 0 || components(b).last() == seq![SLASH]
            || components(b).last() == seq![DOT] || components(b).last() == seq![DOT, DOT],
        is_item_name(name) && name != seq![DOT, DOT] ==> file_name_of(joined(dir, name)) == Some(
            name,
        ),
        is_item_name(name) && name == seq![DOT, DOT] ==> file_name_of(joined(dir, name)) is None,
{
    if is_item_name(name) {
        law_joining_adds_component(dir, name);
        assert(components(joined(dir, name)).last() == name);
        if name == seq![SLASH] {
            assert(name[0] == SLASH);
        }
    }
}

/// The extension is what follows the last dot, however many dots precede it, as
/// long as something stands before that dot. A name without a dot behind its
/// first byte has none.
pub proof fn law_extension_follows_last_dot(stem: Seq<u8>, ext: Seq<u8>, name: Seq<u8>)
    ensures
        stem.len() > 0 && !ext.contains(DOT) ==> extension_of(stem + seq![DOT] + ext) == Some(ext),
        (forall|i: int| 1 <= i < name.len() ==> name[i] != DOT) ==> extension_of(name) is None,
{
    lemma_last_position(name, DOT);
    let whole = stem + seq![DOT] + ext;
    lemma_last_position(whole, DOT);
    if stem.len() > 0 && !ext.contains(DOT) {
        let d = last_position(whole, DOT);
        assert(whole[stem.len() as int] == DOT);
        if d > stem.len() {
            assert(ext[d - stem.len() - 1] == DOT);
        }
        assert(whole.skip(d + 1) =~= ext);
    }
}

/// Bytes that spell a word of small letters and digits, each letter small or
/// capital.
pub open spec fn spells(s: Seq<u8>, word: Seq<char>) -> bool {
    s.len() == word.len() && forall|i: int|
        0 <= i < s.len() ==> (#[trigger] s[i] as int == word[i] as int || ('a' <= word[i] <= 'z'
            && s[i] as int + 32 == word[i] as int))
}

/// The extensions of audio files.
pub open spec fn spells_audio(extension: Seq<u8>) -> bool {
    ||| spells(extension, "mp3"@)
    ||| spells(extension, "wav"@)
    ||| spells(extension, "flac"@)
    ||| spells(extension, "ogg"@)
    ||| spells(extension, "oga"@)
    ||| spells(extension, "m4a"@)
    ||| spells(extension, "aac"@)
    ||| spells(extension, "mp4"@)
    ||| spells(extension, "opus"@)
    ||| spells(extension, "aiff"@)
    ||| spells(extension, "aif"@)
    ||| spells(extension, "mkv"@)
    ||| spells(extension, "wma"@)
}

proof fn lemma_spells(s: Seq<u8>, word: Seq<char>)
    requires
        forall|i: int|
            0 <= i < word.len() ==> ('a' <= #[trigger] word[i] <= 'z' || '0' <= word[i] <= '9'),
    ensures
        lower_text(s) == word <==> spells(s, word),
{
    let low = lower_text(s);
    if low == word {
        assert forall|i: int| 0 <= i < s.len() implies (#[trigger] s[i] as int == word[i] as int
            || ('a' <= word[i] <= 'z' && s[i] as int + 32 == word[i] as int)) by {
            assert(low[i] == word[i]);
        }
    }
    if spells(s, word) {
        assert forall|i: int| 0 <= i < s.len() implies low[i] == word[i] by {
            assert(s[i] as int == word[i] as int || ('a' <= word[i] <= 'z' && s[i] as int + 32
                == word[i] as int));
        }
        assert(low =~= word);
    }
}

/// An extension is that of an audio file exactly where it spells one of the
/// thirteen words, in whatever case.
pub proof fn law_audio_extensions(extension: Seq<u8>)
    ensures
        is_audio_extension(extension) <==> spells_audio(extension),
{
    reveal_strlit("mp3");
    reveal_strlit("wav");
    reveal_strlit("flac");
    reveal_strlit("ogg");
    reveal_strlit("oga");
    reveal_strlit("m4a");
    reveal_strlit("aac");
    reveal_strlit("mp4");
    reveal_strlit("opus");
    reveal_strlit("aiff");
    reveal_strlit("aif");
    reveal_strlit("mkv");
    reveal_strlit("wma");
    lemma_spells(extension, "mp3"@);
    lemma_spells(extension, "wav"@);
    lemma_spells(extension, "flac"@);
    lemma_spells(extension, "ogg"@);
    lemma_spells(extension, "oga"@);
    lemma_spells(extension, "m4a"@);
    lemma_spells(extension, "aac"@);
    lemma_spells(extension, "mp4"@);
    lemma_spells(extension, "opus"@);
    lemma_spells(extension, "aiff"@);
    lemma_spells(extension, "aif"@);
    lemma_spells(extension, "mkv"@);
    lemma_spells(extension, "wma"@);
    assert(audio_extensions()[0] == "mp3"@);
    assert(audio_extensions()[1] == "wav"@);
    assert(audio_extensions()[2] == "flac"@);
    assert(audio_extensions()[3] == "ogg"@);
    assert(audio_extensions()[4] == "oga"@);
    assert(audio_extensions()[5] == "m4a"@);
    assert(audio_extensions()[6] == "aac"@);
    assert(audio_extensions()[7] == "mp4"@);
    assert(audio_extensions()[8] == "opus"@);
    assert(audio_extensions()[9] == "aiff"@);
    assert(audio_extensions()[10] == "aif"@);
    assert(audio_extensions()[11] == "mkv"@);
    assert(audio_extensions()[12] == "wma"@);
    let low = lower_text(extension);
    if is_audio_extension(extension) {
        let k = choose|k: int| 0 <= k < audio_extensions().len() && audio_extensions()[k] == low;
        assert(0 <= k < 13);
    }
}

/// Whether a file is audio depends on what follows the last dot of its name
/// alone: not on its directory, nor on what precedes that dot, dots included, as
/// long as something does. A name without such a dot is no audio, and neither
/// is a path without a name.
pub proof fn law_audio_goes_by_extension(
    dir: Seq<u8>,
    stem: Seq<u8>,
    ext: Seq<u8>,
    name: Seq<u8>,
    b: Seq<u8>,
)
    ensures
        stem.len() > 0 && !stem.contains(SLASH) && !ext.contains(SLASH) && !ext.contains(DOT) ==> (
        is_audio_path(joined(dir, stem + seq![DOT] + ext)) <==> spells_audio(ext)),
        is_item_name(name) && (forall|i: int| 1 <= i < name.len() ==> name[i] != DOT)
            ==> !is_audio_path(joined(dir, name)),
        file_name_of(b) is None ==> !is_audio_path(b),
{
    let whole = stem + seq![DOT] + ext;
    if stem.len() > 0 && !stem.contains(SLASH) && !ext.contains(SLASH) && !ext.contains(DOT) {
        assert(whole.len() >= 2);
        assert(!whole.contains(SLASH)) by {
            if whole.contains(SLASH) {
                let i = choose|i: int| 0 <= i < whole.len() && whole[i] == SLASH;
                if i < stem.len() {
                    assert(stem[i] == SLASH);
                } else if i > stem.len() {
                    assert(ext[i - stem.len() - 1] == SLASH);
                }
            }
        }
        law_file_name_is_last_component(b, dir, whole);
        law_extension_follows_last_dot(stem, ext, name);
        law_audio_extensions(ext);
        if whole == seq![DOT, DOT] {
            assert(ext.len() == 0);
            reveal_strlit("mp3");
            reveal_strlit("wav");
            reveal_strlit("flac");
            reveal_strlit("ogg");
            reveal_strlit("oga");
            reveal_strlit("m4a");
            reveal_strlit("aac");
            reveal_strlit("mp4");
            reveal_strlit("opus");
            reveal_strlit("aiff");
            reveal_strlit("aif");
            reveal_strlit("mkv");
            reveal_strlit("wma");
        }
    }
    law_file_name_is_last_component(b, dir, name);
    law_extension_follows_last_dot(stem, ext, name);
}

/// A path of Unix, where `std::path` reads bytes in the same way. It keeps its
/// components beside its bytes, so that paths are compared without reading them
/// again.
pub struct UnixPath {
    bytes: Vec<u8>,
    parts: Vec<Vec<u8>>,
}

/// The contents of a vector of byte strings.
pub open spec fn byte_strings(v: Seq<Vec<u8>>) -> Seq<Seq<u8>> {
    Seq::new(v.len(), |i: int| v[i]@)
}

impl View for UnixPath {
    type V = Seq<u8>;

    closed spec fn view(&self) -> Seq<u8> {
        self.bytes@
    }
}

/// The part of `b` from `lo` to `hi`.
fn copy_range(b: &Vec<u8>, lo: usize, hi: usize) -> (r: Vec<u8>)
    requires
        lo <= hi <= b@.len(),
    ensures
        r@ == b@.subrange(lo as int, hi as int),
{
    let mut r: Vec<u8> = Vec::new();
    let mut i: usize = lo;
    while i < hi
        invariant
            lo <= i <= hi <= b@.len(),
            r@ == b@.subrange(lo as int, i as int),
        decreases hi - i,
    {
        r.push(b[i]);
        assert(r@ =~= b@.subrange(lo as int, i + 1));
        i = i + 1;
    }
    r
}

/// Tells whether two byte strings are equal.
fn equal_bytes(a: &Vec<u8>, b: &Vec<u8>) -> (r: bool)
    ensures
        r == (a@ == b@),
{
    if a.len() != b.len() {
        return false;
    }
    let mut i: usize = 0;
    while i < a.len()
        invariant
            i <= a@.len(),
            a@.len() == b@.len(),
            forall|j: int| 0 <= j < i ==> a@[j] == b@[j],
        decreases a@.len() - i,
    {
        if a[i] != b[i] {
            return false;
        }
        i = i + 1;
    }
    assert(a@ =~= b@);
    true
}

/// Where the part from `lo` to `hi` last holds `byte`, counted one past it;
/// `lo` where it does not.
fn after_last(b: &Vec<u8>, lo: usize, hi: usize, byte: u8) -> (r: usize)
    requires
        lo <= hi <= b@.len(),
    ensures
        r == lo + last_position(b@.subrange(lo as int, hi as int), byte) + 1,
        lo <= r <= hi,
{
    let mut i: usize = hi;
    while i > lo && b[i - 1] != byte
        invariant
            lo <= i <= hi <= b@.len(),
            last_position(b@.subrange(lo as int, hi as int), byte) == last_position(
                b@.subrange(lo as int, i as int),
                byte,
            ),
        decreases i,
    {
        assert(b@.subrange(lo as int, i as int).drop_last() =~= b@.subrange(lo as int, i - 1));
        i = i - 1;
    }
    i
}

/// Tells whether the part from `lo` to `hi` names no step.
fn noise(b: &Vec<u8>, lo: usize, hi: usize) -> (r: bool)
    requires
        lo <= hi <= b@.len(),
    ensures
        r == is_noise(b@.subrange(lo as int, hi as int)),
{
    if lo == hi {
        true
    } else {
        let r = hi - lo == 1 && b[lo] == DOT;
        proof {
            let s = b@.subrange(lo as int, hi as int);
            if r {
                assert(s =~= seq![DOT]);
            } else if s == seq![DOT] {
                assert(s[0] == DOT && s.len() == 1);
            }
        }
        r
    }
}

/// Where the last step of the part from `lo` to `hi` ends.
fn trimmed_end(b: &Vec<u8>, lo: usize, hi: usize) -> (r: usize)
    requires
        lo <= hi <= b@.len(),
    ensures
        lo <= r <= hi,
        trimmed(b@.subrange(lo as int, hi as int)) == b@.subrange(lo as int, r as int),
{
    let mut end: usize = hi;
    while end > lo
        invariant
            lo <= end <= hi <= b@.len(),
            trimmed(b@.subrange(lo as int, hi as int)) == trimmed(
                b@.subrange(lo as int, end as int),
            ),
        decreases end,
    {
        let ghost s = b@.subrange(lo as int, end as int);
        let k = after_last(b, lo, end, SLASH);
        assert(last_segment(s) =~= b@.subrange(k as int, end as int));
        if !noise(b, k, end) {
            return end;
        }
        if k == lo {
            assert(before_last_segment(s) =~= b@.subrange(lo as int, lo as int));
            end = lo;
        } else {
            assert(before_last_segment(s) =~= b@.subrange(lo as int, k - 1));
            end = k - 1;
        }
    }
    end
}

/// Appends the steps of the part from `lo` to `hi`.
fn push_steps(b: &Vec<u8>, lo: usize, hi: usize, out: &mut Vec<Vec<u8>>)
    requires
        lo <= hi <= b@.len(),
    ensures
        byte_strings(final(out)@) == byte_strings(old(out)@) + steps(
            b@.subrange(lo as int, hi as int),
        ),
    decreases hi,
{
    let ghost s = b@.subrange(lo as int, hi as int);
    let ghost before = byte_strings(out@);
    if lo == hi {
        assert(byte_strings(out@) =~= before + steps(s));
        return;
    }
    let k = after_last(b, lo, hi, SLASH);
    assert(last_segment(s) =~= b@.subrange(k as int, hi as int));
    if k == lo {
        assert(before_last_segment(s) =~= Seq::<u8>::empty());
        assert(byte_strings(out@) =~= before + steps(before_last_segment(s)));
    } else {
        assert(before_last_segment(s) =~= b@.subrange(lo as int, k - 1));
        push_steps(b, lo, k - 1, out);
    }
    if !noise(b, k, hi) {
        let ghost middle = out@;
        let segment = copy_range(b, k, hi);
        out.push(segment);
        assert(byte_strings(out@) =~= byte_strings(middle).push(segment@));
        assert(byte_strings(out@) =~= before + steps(s));
    }
}

impl UnixPath {
    #[verifier::type_invariant]
    closed spec fn parts_match(self) -> bool {
        byte_strings(self.parts@) == components(self.bytes@)
    }

    /// The path that these bytes write.
    pub fn new(bytes: Vec<u8>) -> (r: UnixPath)
        ensures
            r@ == bytes@,
    {
        let n = bytes.len();
        let mut parts: Vec<Vec<u8>> = Vec::new();
        let led = n > 0 && (bytes[0] == SLASH || (bytes[0] == DOT && (n == 1 || bytes[1]
            == SLASH)));
        let lo: usize = if led { 1 } else { 0 };
        if led {
            let lead = copy_range(&bytes, 0, 1);
            parts.push(lead);
        }
        let ghost before = byte_strings(parts@);
        push_steps(&bytes, lo, n, &mut parts);
        proof {
            assert(bytes@.subrange(lo as int, n as int) =~= bytes@.skip(lo as int));
            if led {
                assert(before =~= seq![bytes@.take(1)]);
            } else {
                assert(bytes@.skip(0) =~= bytes@);
                assert(before =~= Seq::<Seq<u8>>::empty());
            }
            assert(byte_strings(parts@) =~= components(bytes@));
        }
        UnixPath { bytes, parts }
    }

    /// The bytes of the path.
    pub fn bytes(&self) -> (r: &Vec<u8>)
        ensures
            r@ == self@,
    {
        &self.bytes
    }

    /// Tells whether two paths have the same components.
    pub fn same_as(&self, other: &UnixPath) -> (r: bool)
        ensures
            r == same_path(self@, other@),
    {
        proof {
            use_type_invariant(self);
            use_type_invariant(other);
        }
        let n = self.parts.len();
        if n != other.parts.len() {
            assert(byte_strings(self.parts@).len() != byte_strings(other.parts@).len());
            return false;
        }
        let mut i: usize = n;
        while i > 0
            invariant
                i <= n,
                n == self.parts@.len(),
                n == other.parts@.len(),
                byte_strings(self.parts@) == components(self.bytes@),
                byte_strings(other.parts@) == components(other.bytes@),
                forall|j: int| i <= j < n ==> self.parts@[j]@ == other.parts@[j]@,
            decreases i,
        {
            if !equal_bytes(&self.parts[i - 1], &other.parts[i - 1]) {
                assert(byte_strings(self.parts@)[i - 1] != byte_strings(other.parts@)[i - 1]);
                return false;
            }
            i = i - 1;
        }
        assert(byte_strings(self.parts@) =~= byte_strings(other.parts@));
        true
    }

    /// The path without its last component.
    pub fn parent(&self) -> (r: Option<UnixPath>)
        ensures
            match r {
                Some(p) => parent_of(self@) == Some(p@),
                None => parent_of(self@) is None,
            },
    {
        let b = &self.bytes;
        let n = b.len();
        let dotted = n > 0 && b[0] == DOT && (n == 1 || b[1] == SLASH);
        let lo: usize = if dotted || (n > 0 && b[0] == SLASH) { 1 } else { 0 };
        let end = trimmed_end(b, lo, n);
        assert(b@.subrange(lo as int, n as int) =~= b@.skip(lo as int));
        if end > lo {
            let ghost body = b@.subrange(lo as int, end as int);
            let k = after_last(b, lo, end, SLASH);
            let cut: usize = if k == lo { lo } else { k - 1 };
            assert(before_last_segment(body) =~= b@.subrange(lo as int, cut as int));
            let stop = trimmed_end(b, lo, cut);
            let kept = copy_range(b, 0, stop);
            assert(kept@ =~= b@.take(lo as int) + b@.subrange(lo as int, stop as int));
            Some(UnixPath::new(kept))
        } else if dotted {
            let none: Vec<u8> = Vec::new();
            Some(UnixPath::new(none))
        } else {
            None
        }
    }

    /// The last component, where it names a file or a directory.
    pub fn file_name(&self) -> (r: Option<&Vec<u8>>)
        ensures
            match r {
                Some(name) => file_name_of(self@) == Some(name@),
                None => file_name_of(self@) is None,
            },
    {
        proof {
            use_type_invariant(self);
        }
        let n = self.parts.len();
        if n == 0 {
            return None;
        }
        let last = &self.parts[n - 1];
        let m = last.len();
        let special = (m == 1 && (last[0] == SLASH || last[0] == DOT)) || (m == 2 && last[0] == DOT
            && last[1] == DOT);
        proof {
            assert(components(self@).last() == last@);
            if m == 1 {
                assert(last@ =~= seq![last@[0]]);
            }
            if m == 2 {
                assert(last@ =~= seq![last@[0], last@[1]]);
            }
            assert(seq![SLASH][0] == SLASH && seq![DOT][0] == DOT);
            assert(seq![DOT, DOT][0] == DOT && seq![DOT, DOT][1] == DOT);
        }
        if special {
            None
        } else {
            Some(last)
        }
    }

    /// The path as text.
    pub fn display(&self) -> (r: String)
        ensures
            r@ == shown_text(self@),
            vstd::utf8::valid_utf8(self@) ==> r@ == vstd::utf8::decode_utf8(self@),
    {
        show_bytes(self.bytes.as_slice())
    }
}

impl Clone for UnixPath {
    fn clone(&self) -> (r: Self)
        ensures
            r@ == self@,
    {
        let copied = copy_range(&self.bytes, 0, self.bytes.len());
        assert(copied@ =~= self.bytes@);
        UnixPath::new(copied)
    }
}

/// Tells whether the bytes, in small letters, are the word.
fn is_word(s: &Vec<u8>, word: &str) -> (r: bool)
    requires
        word.is_ascii(),
    ensures
        r == (lower_text(s@) == word@),
{
    let w = word.as_bytes();
    assert(w@ =~= Seq::new(word@.len(), |i: int| word@[i] as u8));
    if s.len() != w.len() {
        assert(lower_text(s@).len() != word@.len());
        return false;
    }
    let mut i: usize = 0;
    while i < s.len()
        invariant
            i <= s@.len(),
            s@.len() == w@.len(),
            word.is_ascii(),
            w@ == Seq::new(word@.len(), |i: int| word@[i] as u8),
            forall|j: int| 0 <= j < i ==> lower_text(s@)[j] == word@[j],
        decreases s@.len() - i,
    {
        let c = s[i];
        let low: u8 = if 0x41 <= c && c <= 0x5a { c + 0x20 } else { c };
        assert(low == lower_ascii(s@[i as int]));
        if low != w[i] {
            assert(lower_text(s@)[i as int] != word@[i as int]);
            return false;
        }
        i = i + 1;
    }
    assert(lower_text(s@) =~= word@);
    true
}

/// The extension of a file name.
pub fn extension(name: &Vec<u8>) -> (r: Option<Vec<u8>>)
    ensures
        match r {
            Some(e) => extension_of(name@) == Some(e@),
            None => extension_of(name@) is None,
        },
{
    let n = name.len();
    let k = after_last(name, 0, n, DOT);
    assert(name@.subrange(0, n as int) =~= name@);
    if k > 1 {
        assert(name@.subrange(k as int, n as int) =~= name@.skip(k as int));
        Some(copy_range(name, k, n))
    } else {
        None
    }
}

/// Tells whether an extension, in whatever case, is that of an audio file.
pub fn audio_extension(extension: &Vec<u8>) -> (r: bool)
    ensures
        r == is_audio_extension(extension@),
{
    proof {
        reveal_strlit("mp3");
        reveal_strlit("wav");
        reveal_strlit("flac");
        reveal_strlit("ogg");
        reveal_strlit("oga");
        reveal_strlit("m4a");
        reveal_strlit("aac");
        reveal_strlit("mp4");
        reveal_strlit("opus");
        reveal_strlit("aiff");
        reveal_strlit("aif");
        reveal_strlit("mkv");
        reveal_strlit("wma");
    }
    let r = is_word(extension, "mp3")
        || is_word(extension, "wav")
        || is_word(extension, "flac")
        || is_word(extension, "ogg")
        || is_word(extension, "oga")
        || is_word(extension, "m4a")
        || is_word(extension, "aac")
        || is_word(extension, "mp4")
        || is_word(extension, "opus")
        || is_word(extension, "aiff")
        || is_word(extension, "aif")
        || is_word(extension, "mkv")
        || is_word(extension, "wma");
    proof {
        let low = lower_text(extension@);
        assert(audio_extensions()[0] == "mp3"@);
        assert(audio_extensions()[1] == "wav"@);
        assert(audio_extensions()[2] == "flac"@);
        assert(audio_extensions()[3] == "ogg"@);
        assert(audio_extensions()[4] == "oga"@);
        assert(audio_extensions()[5] == "m4a"@);
        assert(audio_extensions()[6] == "aac"@);
        assert(audio_extensions()[7] == "mp4"@);
        assert(audio_extensions()[8] == "opus"@);
        assert(audio_extensions()[9] == "aiff"@);
        assert(audio_extensions()[10] == "aif"@);
        assert(audio_extensions()[11] == "mkv"@);
        assert(audio_extensions()[12] == "wma"@);
        if is_audio_extension(extension@) {
            let i = choose|i: int|
                0 <= i < audio_extensions().len() && audio_extensions()[i] == low;
            assert(0 <= i < 13);
        }
    }
    r
}

/// Tells by its extension whether a path names an audio file.
pub fn is_audio(path: &UnixPath) -> (r: bool)
    ensures
        r == is_audio_path(path@),
{
    match path.file_name() {
        Some(name) => match extension(name) {
            Some(e) => audio_extension(&e),
            None => false,
        },
        None => false,
    }
}

} // verus!
