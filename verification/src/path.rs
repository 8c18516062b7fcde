//! Paths of files, as byte strings. Paths that have been resolved have `/` as the separator.

use crate::platform::Platform;
use crate::text::{
    find_byte, find_from, has_prefix, lemma_find_byte, push_bytes, split, to_vec, BACKSLASH, COLON,
    DOT, SLASH,
};
use vstd::prelude::*;
use vstd::slice::slice_subrange;

verus! {

/// The segment that stands for the directory itself.
pub open spec fn here() -> Seq<u8> {
    seq![DOT]
}

/// The segment that stands for the parent directory.
pub open spec fn up() -> Seq<u8> {
    seq![DOT, DOT]
}

/// Whether a byte is a letter.
pub open spec fn is_letter(b: u8) -> bool {
    65 <= b <= 90 || 97 <= b <= 122
}

/// A byte of a path, with `/` for each separator.
pub open spec fn slashed(platform: Platform, b: u8) -> u8 {
    if platform == Platform::Windows && b == BACKSLASH {
        SLASH
    } else {
        b
    }
}

/// A path with `/` for each separator.
pub open spec fn with_slashes(platform: Platform, path: Seq<u8>) -> Seq<u8> {
    path.map_values(|b: u8| slashed(platform, b))
}

/// Whether a path starts with a Windows path prefix: a drive such as `C:\`, or `\\`. Where
/// paths are written in that way, it may be a drive without a separator too, and any two
/// separators.
pub open spec fn has_drive(platform: Platform, path: Seq<u8>) -> bool {
    ||| path.len() >= 2 && path[0] == BACKSLASH && path[1] == BACKSLASH
    ||| path.len() >= 3 && is_letter(path[0]) && path[1] == COLON && path[2] == BACKSLASH
    ||| platform == Platform::Windows && path.len() >= 2 && is_letter(path[0]) && path[1] == COLON
    ||| platform == Platform::Windows && path.len() >= 2 && slashed(platform, path[0]) == SLASH
        && slashed(platform, path[1]) == SLASH
}

/// What makes a path unsafe to resolve, if anything.
pub open spec fn path_fault(platform: Platform, path: Seq<u8>) -> Option<Seq<char>> {
    let p = with_slashes(platform, path);
    if path.contains(0) {
        Some("path contains NUL byte"@)
    } else if has_drive(platform, path) {
        Some("path contains a prefix"@)
    } else if p.len() > 0 && p[0] == SLASH {
        Some("path is absolute"@)
    } else if split(p, SLASH).contains(up()) {
        Some("path contains .. segment"@)
    } else {
        None
    }
}

/// Tells the segments that name something.
pub open spec fn is_name() -> spec_fn(Seq<u8>) -> bool {
    |s: Seq<u8>| s.len() > 0 && s != here()
}

/// The segments of a path that name something: not the empty ones, nor `.`.
pub open spec fn names(platform: Platform, path: Seq<u8>) -> Seq<Seq<u8>> {
    split(with_slashes(platform, path), SLASH).filter(is_name())
}

/// A path with one more segment.
pub open spec fn joined(dir: Seq<u8>, segment: Seq<u8>) -> Seq<u8> {
    if dir.len() == 0 {
        segment
    } else if dir.last() == SLASH {
        dir + segment
    } else {
        dir.push(SLASH) + segment
    }
}

/// A path with further segments.
pub open spec fn joined_all(dir: Seq<u8>, segments: Seq<Seq<u8>>) -> Seq<u8>
    decreases segments.len(),
{
    if segments.len() == 0 {
        dir
    } else {
        joined(joined_all(dir, segments.drop_last()), segments.last())
    }
}

/// A path below a directory.
pub open spec fn below(platform: Platform, dir: Seq<u8>, path: Seq<u8>) -> Seq<u8> {
    joined_all(dir, names(platform, path))
}

/// A path without what makes no difference at its end: separators, and segments `.`
/// behind a separator.
pub open spec fn trim_tail(path: Seq<u8>) -> Seq<u8>
    decreases path.len(),
{
    if path.len() > 0 && path.last() == SLASH {
        trim_tail(path.drop_last())
    } else if path.len() > 1 && path.last() == DOT && path[path.len() - 2] == SLASH {
        trim_tail(path.drop_last())
    } else {
        path
    }
}

/// The index behind the last `b`, or 0 if there is none.
pub open spec fn after_last(s: Seq<u8>, b: u8) -> int
    decreases s.len(),
{
    if s.len() == 0 {
        0
    } else if s.last() == b {
        s.len() as int
    } else {
        after_last(s.drop_last(), b)
    }
}

/// The last segment of a path, if it names something.
pub open spec fn file_name(path: Seq<u8>) -> Option<Seq<u8>> {
    let t = trim_tail(path);
    let name = t.skip(after_last(t, SLASH));
    if name.len() == 0 || name == here() || name == up() {
        None
    } else {
        Some(name)
    }
}

/// The extension of a file: what follows the last dot of its name. A name that has no dot,
/// or only one at its beginning, has none.
pub open spec fn extension_of(path: Seq<u8>) -> Seq<u8> {
    match file_name(path) {
        None => Seq::empty(),
        Some(name) => {
            let i = after_last(name, DOT);
            if i <= 1 {
                Seq::empty()
            } else {
                name.skip(i)
            }
        },
    }
}

/// A path with a further extension added to the file name.
pub open spec fn with_extension(path: Seq<u8>, extension: Seq<u8>) -> Seq<u8> {
    match file_name(path) {
        None => path,
        Some(_) => trim_tail(path).push(DOT) + extension,
    }
}

/// Finds the index behind the last `b`.
fn find_after_last(s: &[u8], b: u8) -> (r: usize)
    ensures
        r == after_last(s@, b),
        r <= s@.len(),
{
    let mut n: usize = s.len();
    assert(s@.take(n as int) =~= s@);
    while n > 0 && s[n - 1] != b
        invariant
            n <= s@.len(),
            after_last(s@, b) == after_last(s@.take(n as int), b),
        decreases n,
    {
        assert(s@.take(n as int).drop_last() =~= s@.take(n - 1));
        n -= 1;
    }
    n
}

/// Strips what makes no difference at the end of a path.
fn strip_tail(path: &[u8]) -> (r: &[u8])
    ensures
        r@ == trim_tail(path@),
{
    let mut n: usize = path.len();
    assert(path@.take(n as int) =~= path@);
    while n > 0 && (path[n - 1] == SLASH || (n > 1 && path[n - 1] == DOT && path[n - 2] == SLASH))
        invariant
            n <= path@.len(),
            trim_tail(path@) == trim_tail(path@.take(n as int)),
        decreases n,
    {
        assert(path@.take(n as int).drop_last() =~= path@.take(n - 1));
        n -= 1;
    }
    let r = slice_subrange(path, 0, n);
    assert(r@ =~= path@.take(n as int));
    r
}

/// Whether a segment stands for the directory itself.
fn is_here(s: &[u8]) -> (r: bool)
    ensures
        r == (s@ == here()),
{
    let r = s.len() == 1 && s[0] == DOT;
    assert(r ==> s@ =~= here());
    r
}

/// Whether a segment stands for the parent directory.
fn is_up(s: &[u8]) -> (r: bool)
    ensures
        r == (s@ == up()),
{
    let r = s.len() == 2 && s[0] == DOT && s[1] == DOT;
    assert(r ==> s@ =~= up());
    r
}

/// The last segment of a path, if it names something.
fn last_name(path: &[u8]) -> (r: Option<&[u8]>)
    ensures
        match r {
            Some(name) => file_name(path@) == Some(name@),
            None => file_name(path@) is None,
        },
{
    let t = strip_tail(path);
    let name = slice_subrange(t, find_after_last(t, SLASH), t.len());
    assert(name@ =~= t@.skip(after_last(t@, SLASH)));
    if name.len() == 0 || is_here(name) || is_up(name) {
        None
    } else {
        Some(name)
    }
}

/// The extension of a file.
pub fn extension(path: &[u8]) -> (r: Vec<u8>)
    ensures
        r@ == extension_of(path@),
{
    match last_name(path) {
        None => Vec::new(),
        Some(name) => {
            let i = find_after_last(name, DOT);
            if i <= 1 {
                Vec::new()
            } else {
                let e = slice_subrange(name, i, name.len());
                assert(e@ =~= name@.skip(i as int));
                to_vec(e)
            }
        },
    }
}

/// Adds a further extension to the file name of a path.
pub fn append_extension(path: &[u8], extension: &[u8]) -> (r: Vec<u8>)
    ensures
        r@ == with_extension(path@, extension@),
{
    match last_name(path) {
        None => to_vec(path),
        Some(_) => {
            let mut r = to_vec(strip_tail(path));
            r.push(DOT);
            push_bytes(&mut r, extension);
            r
        },
    }
}

/// Adds a segment to a path.
pub(crate) fn push_segment(dir: &mut Vec<u8>, segment: &[u8])
    ensures
        final(dir)@ == joined(old(dir)@, segment@),
{
    let n: usize = dir.len();
    if n > 0 && dir[n - 1] != SLASH {
        dir.push(SLASH);
    }
    push_bytes(dir, segment);
    assert(dir@ =~= joined(old(dir)@, segment@));
}

/// Whether a byte string holds a NUL.
fn has_nul(s: &[u8]) -> (r: bool)
    ensures
        r == s@.contains(0),
{
    let mut i: usize = 0;
    while i < s.len()
        invariant
            i <= s@.len(),
            forall|j: int| 0 <= j < i ==> s@[j] != 0,
        decreases s@.len() - i,
    {
        if s[i] == 0 {
            assert(s@[i as int] == 0);
            return true;
        }
        i += 1;
    }
    false
}

/// Writes a path with `/` for each separator.
fn to_slashes(platform: Platform, path: &[u8]) -> (r: Vec<u8>)
    ensures
        r@ == with_slashes(platform, path@),
{
    let mut r: Vec<u8> = Vec::new();
    let mut i: usize = 0;
    while i < path.len()
        invariant
            i <= path@.len(),
            r@ == with_slashes(platform, path@).take(i as int),
        decreases path@.len() - i,
    {
        let b = path[i];
        r.push(
            if platform == Platform::Windows && b == BACKSLASH {
                SLASH
            } else {
                b
            },
        );
        i += 1;
        assert(r@ =~= with_slashes(platform, path@).take(i as int));
    }
    assert(r@ =~= with_slashes(platform, path@));
    r
}

/// Whether a path starts with a Windows path prefix.
pub(crate) fn starts_with_drive(platform: Platform, path: &[u8]) -> (r: bool)
    ensures
        r == has_drive(platform, path@),
{
    let n = path.len();
    if n < 2 {
        return false;
    }
    let windows = platform == Platform::Windows;
    let drive = ((65 <= path[0] && path[0] <= 90) || (97 <= path[0] && path[0] <= 122)) && path[1]
        == COLON;
    if path[0] == BACKSLASH && path[1] == BACKSLASH {
        return true;
    }
    if drive && (windows || (n >= 3 && path[2] == BACKSLASH)) {
        return true;
    }
    windows && (path[0] == SLASH || path[0] == BACKSLASH) && (path[1] == SLASH || path[1]
        == BACKSLASH)
}

/// Resolves a path below a directory: the resulting path, or what makes the path unsafe
/// to resolve.
pub fn resolve_below(platform: Platform, dir: &[u8], path: &[u8]) -> (r: Result<
    Vec<u8>,
    &'static str,
>)
    ensures
        match path_fault(platform, path@) {
            Some(msg) => r matches Err(m) && m@ == msg,
            None => r matches Ok(full) && full@ == below(platform, dir@, path@),
        },
{
    if has_nul(path) {
        return Err("path contains NUL byte");
    }
    if starts_with_drive(platform, path) {
        return Err("path contains a prefix");
    }
    let slashes = to_slashes(platform, path);
    let p = slashes.as_slice();
    if p.len() > 0 && p[0] == SLASH {
        return Err("path is absolute");
    }
    let mut full = to_vec(dir);
    let mut pos: usize = 0;
    let ghost all = split(p@, SLASH);
    let ghost mut seen: Seq<Seq<u8>> = Seq::empty();
    proof {
        assert(p@.skip(0) =~= p@);
        assert(seen + all =~= all);
        reveal(Seq::filter);
        assert(seen.filter(is_name()) =~= Seq::empty());
    }
    loop
        invariant_except_break
            all == split(p@, SLASH),
            p@ == with_slashes(platform, path@),
            !path@.contains(0),
            !has_drive(platform, path@),
            p@.len() > 0 ==> p@[0] != SLASH,
            pos <= p@.len(),
            all == seen + split(p@.skip(pos as int), SLASH),
            !seen.contains(up()),
            full@ == joined_all(dir@, seen.filter(is_name())),
        ensures
            all == seen,
            !seen.contains(up()),
            full@ == joined_all(dir@, seen.filter(is_name())),
        decreases p@.len() - pos,
    {
        let end = find_from(p, SLASH, pos);
        let segment = slice_subrange(p, pos, end);
        let ghost left = p@.skip(pos as int);
        let ghost rest = split(left, SLASH);
        let ghost before = seen;
        proof {
            lemma_find_byte(left, SLASH);
            assert(segment@ =~= left.take(end - pos));
            if end < p@.len() {
                assert(left.skip(end - pos + 1) =~= p@.skip(end + 1));
                assert(rest =~= seq![segment@] + split(p@.skip(end + 1), SLASH));
            } else {
                assert(segment@ =~= left);
                assert(rest =~= seq![segment@]);
            }
            assert(all[before.len() as int] == segment@);
        }
        if is_up(segment) {
            assert(all.contains(up()));
            return Err("path contains .. segment");
        }
        proof {
            seen = seen.push(segment@);
            assert(seen.drop_last() =~= before);
            reveal(Seq::filter);
            assert forall|i: int| 0 <= i < seen.len() implies seen[i] != up() by {
                if i < before.len() {
                    assert(before[i] == seen[i]);
                    assert(before.contains(before[i]));
                }
            }
            if end < p@.len() {
                assert(before + rest =~= seen + split(p@.skip(end + 1), SLASH));
            } else {
                assert(before + rest =~= seen);
            }
        }
        if segment.len() > 0 && !is_here(segment) {
            push_segment(&mut full, segment);
            proof {
                let kept = before.filter(is_name());
                assert(seen.filter(is_name()) =~= kept.push(segment@));
                assert(kept.push(segment@).drop_last() =~= kept);
            }
        } else {
            assert(seen.filter(is_name()) =~= before.filter(is_name()));
        }
        if end == p.len() {
            break;
        }
        pos = end + 1;
    }
    Ok(full)
}

/// The segments of a path hold no separator, and only bytes of the path.
proof fn lemma_split_segments(path: Seq<u8>)
    ensures
        forall|i: int, b: u8|
            0 <= i < split(path, SLASH).len() && (#[trigger] split(path, SLASH)[i].contains(b))
                ==> b != SLASH && path.contains(b),
    decreases path.len(),
{
    lemma_find_byte(path, SLASH);
    let n = find_byte(path, SLASH);
    let all = split(path, SLASH);
    if n < path.len() {
        let rest = path.skip(n + 1);
        lemma_split_segments(rest);
        assert forall|i: int, b: u8| 0 <= i < all.len() && (#[trigger] all[i].contains(b)) implies b
            != SLASH && path.contains(b) by {
            if i == 0 {
                let k = choose|k: int| 0 <= k < all[0].len() && all[0][k] == b;
                assert(path[k] == b);
            } else {
                assert(all[i] == split(rest, SLASH)[i - 1]);
                let k = choose|k: int| 0 <= k < rest.len() && rest[k] == b;
                assert(path[k + n + 1] == b);
            }
        }
    } else {
        assert forall|i: int, b: u8| 0 <= i < all.len() && (#[trigger] all[i].contains(b)) implies b
            != SLASH && path.contains(b) by {
            let k = choose|k: int| 0 <= k < path.len() && path[k] == b;
            assert(path[k] == b);
        }
    }
}

/// The names of a path are segments of it that name something.
proof fn lemma_names(segments: Seq<Seq<u8>>)
    ensures
        forall|i: int|
            0 <= i < segments.filter(is_name()).len() ==> is_name()(
                #[trigger] segments.filter(is_name())[i],
            ) && segments.contains(segments.filter(is_name())[i]),
    decreases segments.len(),
{
    reveal(Seq::filter);
    let kept = segments.filter(is_name());
    if segments.len() > 0 {
        let head = segments.drop_last();
        lemma_names(head);
        assert forall|i: int| 0 <= i < kept.len() implies is_name()(#[trigger] kept[i])
            && segments.contains(kept[i]) by {
            if i < head.filter(is_name()).len() {
                assert(kept[i] == head.filter(is_name())[i]);
                let k = choose|k: int| 0 <= k < head.len() && head[k] == kept[i];
                assert(segments[k] == kept[i]);
            } else {
                assert(kept[i] == segments.last());
                assert(segments[segments.len() - 1] == kept[i]);
            }
        }
    }
}

/// Whether a segment names something within its directory, and nothing above it.
pub open spec fn is_plain_name(s: Seq<u8>) -> bool {
    s.len() > 0 && s != here() && s != up() && !s.contains(SLASH) && !s.contains(0)
}

/// What is joined to a directory begins with the directory.
proof fn lemma_joined_prefix(dir: Seq<u8>, segments: Seq<Seq<u8>>)
    ensures
        has_prefix(joined_all(dir, segments), dir),
    decreases segments.len(),
{
    if segments.len() > 0 {
        lemma_joined_prefix(dir, segments.drop_last());
        let before = joined_all(dir, segments.drop_last());
        let after = joined_all(dir, segments);
        assert(after.take(before.len() as int) =~= before);
        assert(after.take(dir.len() as int) =~= before.take(dir.len() as int));
    } else {
        assert(dir.take(dir.len() as int) =~= dir);
    }
}

/// A path that is resolved never leads out of its directory: it is the directory followed
/// by plain names, none of which is `..`, holds a separator or holds a NUL.
pub proof fn resolved_paths_stay_below(platform: Platform, dir: Seq<u8>, path: Seq<u8>)
    requires
        path_fault(platform, path) is None,
    ensures
        has_prefix(below(platform, dir, path), dir),
        below(platform, dir, path) == joined_all(dir, names(platform, path)),
        forall|i: int|
            0 <= i < names(platform, path).len() ==> is_plain_name(#[trigger] names(platform, path)[i])
                && (platform == Platform::Windows ==> !names(platform, path)[i].contains(BACKSLASH)),
{
    let p = with_slashes(platform, path);
    let all = split(p, SLASH);
    lemma_joined_prefix(dir, names(platform, path));
    lemma_split_segments(p);
    lemma_names(all);
    assert(!p.contains(0)) by {
        if p.contains(0) {
            let k = choose|k: int| 0 <= k < p.len() && p[k] == 0;
            assert(path[k] == 0);
        }
    }
    assert(platform == Platform::Windows ==> !p.contains(BACKSLASH));
    assert forall|i: int| 0 <= i < names(platform, path).len() implies is_plain_name(
        #[trigger] names(platform, path)[i],
    ) && (platform == Platform::Windows ==> !names(platform, path)[i].contains(BACKSLASH)) by {
        let s = names(platform, path)[i];
        assert(is_name()(s));
        assert(all.contains(s));
        let k = choose|k: int| 0 <= k < all.len() && all[k] == s;
        assert(!all[k].contains(SLASH));
        assert(!all[k].contains(0u8));
        assert(all[k].contains(BACKSLASH) ==> p.contains(BACKSLASH));
    }
}

/// Where `\` separates segments, it does so as `/` does: a path is refused, or resolved to the
/// same file, whichever of the two it is written with, unless it has a Windows path prefix.
pub proof fn separators_are_equivalent(dir: Seq<u8>, path: Seq<u8>)
    requires
        !has_drive(Platform::Windows, path),
    ensures
        path_fault(Platform::Windows, path) == path_fault(
            Platform::Windows,
            with_slashes(Platform::Windows, path),
        ),
        below(Platform::Windows, dir, path) == below(
            Platform::Windows,
            dir,
            with_slashes(Platform::Windows, path),
        ),
{
    let platform = Platform::Windows;
    let p = with_slashes(platform, path);
    assert(with_slashes(platform, p) =~= p);
    if path.contains(0) {
        let k = choose|k: int| 0 <= k < path.len() && path[k] == 0;
        assert(p[k] == 0);
    }
    if p.contains(0) {
        let k = choose|k: int| 0 <= k < p.len() && p[k] == 0;
        assert(path[k] == 0);
    }
    assert(!has_drive(platform, p));
}

} // verus!
