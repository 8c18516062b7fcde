//! What becomes of the paths of requests and of files.

use crate::path::{
    after_last, below, extension_of, file_name, has_drive, is_name, joined, joined_all,
    names, path_fault, trim_tail, up, with_extension, with_slashes,
};
use crate::platform::Platform;
use crate::served_dir::requested_path;
use crate::text::{
    joined_by, lemma_find_byte, split, splitting_distributes_over_joining,
    splitting_undoes_joining, BACKSLASH, COLON, DOT, SLASH,
};
use vstd::prelude::*;

verus! {

/// Whether a segment holds no separator.
pub open spec fn is_segment(platform: Platform, s: Seq<u8>) -> bool {
    !s.contains(SLASH) && (platform == Platform::Windows ==> !s.contains(BACKSLASH))
}

/// Whether all segments of a list hold no separator.
pub open spec fn are_segments(platform: Platform, segments: Seq<Seq<u8>>) -> bool {
    forall|i: int| 0 <= i < segments.len() ==> is_segment(platform, #[trigger] segments[i])
}

/// Whether all segments of a list name something: none is empty, `.` or `..`.
pub open spec fn all_name(segments: Seq<Seq<u8>>) -> bool {
    forall|i: int|
        0 <= i < segments.len() ==> (#[trigger] segments[i]).len() > 0 && segments[i] != seq![DOT]
            && segments[i] != seq![DOT, DOT]
}

/// Whether a path starts with a drive, or with two backslashes.
pub open spec fn starts_with_a_prefix(platform: Platform, path: Seq<u8>) -> bool {
    &&& path.len() >= 2
    &&& {
        ||| path[0] == BACKSLASH && path[1] == BACKSLASH
        ||| (65 <= path[0] <= 90 || 97 <= path[0] <= 122) && path[1] == COLON && (platform
            == Platform::Windows || (path.len() >= 3 && path[2] == BACKSLASH))
    }
}

/// Splitting what is joined of segments gives the segments back.
proof fn lemma_segments(platform: Platform, segments: Seq<Seq<u8>>)
    requires
        segments.len() > 0,
        are_segments(platform, segments),
    ensures
        with_slashes(platform, joined_by(segments, SLASH)) == joined_by(segments, SLASH),
        split(with_slashes(platform, joined_by(segments, SLASH)), SLASH) == segments,
{
    let s = joined_by(segments, SLASH);
    assert forall|i: int| 0 <= i < segments.len() implies !(#[trigger] segments[i]).contains(
        SLASH,
    ) by {
        assert(is_segment(platform, segments[i]));
    }
    splitting_undoes_joining(segments, SLASH);
    lemma_no_backslash(platform, segments);
    assert(with_slashes(platform, s) =~= s);
}

/// Segments without a backslash have none when they are joined.
proof fn lemma_no_backslash(platform: Platform, segments: Seq<Seq<u8>>)
    requires
        are_segments(platform, segments),
    ensures
        platform == Platform::Windows ==> forall|i: int|
            0 <= i < joined_by(segments, SLASH).len() ==> #[trigger] joined_by(segments, SLASH)[i]
                != BACKSLASH,
    decreases segments.len(),
{
    if platform == Platform::Windows && segments.len() > 0 {
        let first = segments[0];
        let rest = segments.skip(1);
        let s = joined_by(segments, SLASH);
        assert(is_segment(platform, first));
        assert forall|i: int| 0 <= i < rest.len() implies is_segment(
            platform,
            #[trigger] rest[i],
        ) by {
            assert(rest[i] == segments[i + 1]);
        }
        lemma_no_backslash(platform, rest);
        assert forall|i: int| 0 <= i < s.len() implies #[trigger] s[i] != BACKSLASH by {
            if i < first.len() {
                assert(s[i] == first[i]);
                assert(first.contains(first[i]));
            } else if i > first.len() {
                assert(s[i] == joined_by(rest, SLASH)[i - first.len() - 1]);
            }
        }
    }
}

/// A path is refused if and only if it holds a NUL, has a `..` segment, begins with a separator,
/// or begins with a drive or two backslashes.
pub proof fn only_unsafe_paths_are_refused(platform: Platform, segments: Seq<Seq<u8>>)
    requires
        segments.len() > 0,
        are_segments(platform, segments),
    ensures
        path_fault(platform, joined_by(segments, SLASH)) is Some <==> {
            ||| joined_by(segments, SLASH).contains(0)
            ||| exists|i: int|
                0 <= i < segments.len() && #[trigger] segments[i] == seq![DOT, DOT]
            ||| segments.len() > 1 && segments[0].len() == 0
            ||| starts_with_a_prefix(platform, joined_by(segments, SLASH))
        },
{
    let p = joined_by(segments, SLASH);
    lemma_segments(platform, segments);
    lemma_no_backslash(platform, segments);
    assert(is_segment(platform, segments[0]));
    if p.len() > 0 && p[0] == SLASH {
        if segments[0].len() > 0 {
            assert(p[0] == segments[0][0]);
            assert(segments[0].contains(segments[0][0]));
        }
    }
    if segments.len() > 1 && segments[0].len() == 0 {
        assert(p[0] == SLASH);
    }
    if segments.contains(up()) {
        let i = choose|i: int| 0 <= i < segments.len() && segments[i] == up();
        assert(segments[i] == seq![DOT, DOT]);
    }
    if exists|i: int| 0 <= i < segments.len() && #[trigger] segments[i] == seq![DOT, DOT] {
        let i = choose|i: int|
            0 <= i < segments.len() && #[trigger] segments[i] == seq![DOT, DOT];
        assert(segments[i] == up());
        assert(segments.contains(up()));
    }
    if has_drive(platform, p) && !starts_with_a_prefix(platform, p) {
        assert(p[0] == SLASH);
    }
}

/// Segments that all name something are all kept.
proof fn lemma_all_kept(segments: Seq<Seq<u8>>)
    requires
        all_name(segments),
    ensures
        segments.filter(is_name()) == segments,
    decreases segments.len(),
{
    reveal(Seq::filter);
    if segments.len() > 0 {
        let head = segments.drop_last();
        assert forall|i: int| 0 <= i < head.len() implies (#[trigger] head[i]).len() > 0 && head[i]
            != seq![DOT] && head[i] != seq![DOT, DOT] by {
            assert(head[i] == segments[i]);
        }
        lemma_all_kept(head);
        assert(segments[segments.len() - 1].len() > 0);
        assert(is_name()(segments.last()));
        assert(segments =~= head.push(segments.last()));
    }
}

/// Adding names to a directory, one after the other, is adding them at once.
proof fn lemma_joined_names(dir: Seq<u8>, segments: Seq<Seq<u8>>)
    requires
        dir.len() > 0,
        dir.last() != SLASH,
        all_name(segments),
        forall|i: int| 0 <= i < segments.len() ==> !(#[trigger] segments[i]).contains(SLASH),
    ensures
        segments.len() > 0 ==> joined_all(dir, segments) == dir + seq![SLASH] + joined_by(
            segments,
            SLASH,
        ),
        joined_all(dir, segments).len() > 0,
        joined_all(dir, segments).last() != SLASH,
    decreases segments.len(),
{
    if segments.len() > 0 {
        let head = segments.drop_last();
        let last = segments.last();
        assert forall|i: int| 0 <= i < head.len() implies (#[trigger] head[i]).len() > 0 && head[i]
            != seq![DOT] && head[i] != seq![DOT, DOT] && !head[i].contains(SLASH) by {
            assert(head[i] == segments[i]);
        }
        lemma_joined_names(dir, head);
        assert(segments[segments.len() - 1].len() > 0);
        assert(!segments[segments.len() - 1].contains(SLASH));
        assert(last.contains(last.last()));
        let all = joined_all(dir, segments);
        assert(all == joined_all(dir, head).push(SLASH) + last);
        assert(all.last() == last.last());
        if head.len() == 0 {
            assert(segments =~= seq![last]);
            assert(all =~= dir + seq![SLASH] + last);
        } else {
            lemma_joined_by_push(head, last);
            assert(head.push(last) =~= segments);
            assert(all =~= dir + seq![SLASH] + joined_by(segments, SLASH));
        }
    }
}

/// Joining one more part adds it at the end.
proof fn lemma_joined_by_push(parts: Seq<Seq<u8>>, last: Seq<u8>)
    requires
        parts.len() > 0,
    ensures
        joined_by(parts.push(last), SLASH) == joined_by(parts, SLASH) + seq![SLASH] + last,
    decreases parts.len(),
{
    let all = parts.push(last);
    assert(all.skip(1) =~= parts.skip(1).push(last));
    if parts.len() == 1 {
        assert(all.skip(1) =~= seq![last]);
        assert(joined_by(all.skip(1), SLASH) =~= last);
    } else {
        lemma_joined_by_push(parts.skip(1), last);
        assert(joined_by(all, SLASH) =~= joined_by(parts, SLASH) + seq![SLASH] + last);
    }
}

/// Resolving a path keeps every name of it, in order: a path of names joined by `/` leads to the
/// same names below the directory.
pub proof fn resolving_keeps_every_name(platform: Platform, dir: Seq<u8>, segments: Seq<Seq<u8>>)
    requires
        segments.len() > 0,
        are_segments(platform, segments),
        all_name(segments),
        dir.len() > 0,
        dir.last() != SLASH,
    ensures
        names(platform, joined_by(segments, SLASH)) == segments,
        below(platform, dir, joined_by(segments, SLASH)) == dir + seq![SLASH] + joined_by(
            segments,
            SLASH,
        ),
{
    lemma_segments(platform, segments);
    lemma_all_kept(segments);
    assert forall|i: int| 0 <= i < segments.len() implies !(#[trigger] segments[i]).contains(
        SLASH,
    ) by {
        assert(is_segment(platform, segments[i]));
    }
    lemma_joined_names(dir, segments);
}

/// The names of two paths with a separator between them are the names of each.
proof fn lemma_names_concat(platform: Platform, a: Seq<u8>, b: Seq<u8>)
    ensures
        names(platform, a + seq![SLASH] + b) == names(platform, a) + names(platform, b),
{
    let s = a + seq![SLASH] + b;
    let pa = with_slashes(platform, a);
    let pb = with_slashes(platform, b);
    assert(with_slashes(platform, s) =~= pa + seq![SLASH] + pb);
    splitting_distributes_over_joining(pa, pb, SLASH);
    Seq::filter_distributes_over_add(split(pa, SLASH), split(pb, SLASH), is_name());
}

/// Adding two lists of names is adding the one and then the other.
proof fn lemma_joined_concat(dir: Seq<u8>, a: Seq<Seq<u8>>, b: Seq<Seq<u8>>)
    ensures
        joined_all(dir, a + b) == joined_all(joined_all(dir, a), b),
    decreases b.len(),
{
    if b.len() == 0 {
        assert(a + b =~= a);
    } else {
        assert((a + b).drop_last() =~= a + b.drop_last());
        lemma_joined_concat(dir, a, b.drop_last());
    }
}

/// Resolving a path segment by segment is resolving it at once: what follows a separator is
/// resolved below what precedes it.
pub proof fn paths_are_resolved_step_by_step(
    platform: Platform,
    dir: Seq<u8>,
    a: Seq<u8>,
    b: Seq<u8>,
)
    ensures
        below(platform, dir, a + seq![SLASH] + b) == below(platform, below(platform, dir, a), b),
{
    lemma_names_concat(platform, a, b);
    lemma_joined_concat(dir, names(platform, a), names(platform, b));
}

/// Empty segments and `.` lead nowhere else, wherever they stand in a path.
pub proof fn empty_segments_make_no_difference(
    platform: Platform,
    dir: Seq<u8>,
    a: Seq<u8>,
    b: Seq<u8>,
)
    ensures
        below(platform, dir, Seq::empty()) == dir,
        below(platform, dir, seq![DOT]) == dir,
        below(platform, dir, a + seq![SLASH]) == below(platform, dir, a),
        below(platform, dir, a + seq![SLASH] + seq![DOT]) == below(platform, dir, a),
        below(platform, dir, a + seq![SLASH, SLASH] + b) == below(
            platform,
            dir,
            a + seq![SLASH] + b,
        ),
        below(platform, dir, a + seq![SLASH, DOT, SLASH] + b) == below(
            platform,
            dir,
            a + seq![SLASH] + b,
        ),
{
    let none = Seq::<u8>::empty();
    let dot = seq![DOT];
    reveal(Seq::filter);
    assert(with_slashes(platform, none) =~= none);
    assert(with_slashes(platform, dot) =~= dot);
    lemma_find_byte(dot, SLASH);
    assert(split(none, SLASH) =~= seq![none]);
    assert(split(dot, SLASH) =~= seq![dot]);
    lemma_no_names(none);
    lemma_no_names(dot);
    assert(names(platform, none) =~= Seq::empty());
    assert(names(platform, dot) =~= Seq::empty());
    lemma_names_concat(platform, a, none);
    assert(a + seq![SLASH] + none =~= a + seq![SLASH]);
    assert(names(platform, a) + Seq::<Seq<u8>>::empty() =~= names(platform, a));
    lemma_names_concat(platform, a, dot);
    lemma_names_concat(platform, a, b);
    lemma_names_concat(platform, a + seq![SLASH], b);
    assert(a + seq![SLASH] + seq![SLASH] + b =~= a + seq![SLASH, SLASH] + b);
    lemma_names_concat(platform, a + seq![SLASH] + dot, b);
    assert(a + seq![SLASH] + dot + seq![SLASH] + b =~= a + seq![SLASH, DOT, SLASH] + b);
}

/// A segment that names nothing is not kept.
proof fn lemma_no_names(s: Seq<u8>)
    requires
        s.len() == 0 || s == seq![DOT],
    ensures
        seq![s].filter(is_name()) == Seq::<Seq<u8>>::empty(),
{
    reveal(Seq::filter);
    let one = seq![s];
    assert(one.drop_last() =~= Seq::<Seq<u8>>::empty());
    assert(one.drop_last().filter(is_name()) =~= Seq::<Seq<u8>>::empty());
    assert(one.last() == s);
}

/// A request path asks for what follows the prefix that is stripped from all paths, without one
/// slash in front. The prefix alone asks for the directory itself.
pub proof fn what_follows_the_prefix_is_requested(
    platform: Platform,
    dir: Seq<u8>,
    prefix: Seq<u8>,
    rest: Seq<u8>,
)
    requires
        rest.len() > 0,
    ensures
        requested_path(Some(prefix), prefix + seq![SLASH] + rest) == Some(rest),
        requested_path(None, seq![SLASH] + rest) == Some(rest),
        rest[0] != SLASH ==> requested_path(Some(prefix), prefix + rest) == Some(rest),
        rest[0] != SLASH ==> requested_path(None, rest) == Some(rest),
        requested_path(Some(prefix), prefix) matches Some(p) && below(platform, dir, p) == dir,
        requested_path(None, seq![SLASH]) matches Some(p) && below(platform, dir, p) == dir,
{
    let a = prefix + seq![SLASH] + rest;
    let b = prefix + rest;
    assert(a.take(prefix.len() as int) =~= prefix);
    assert(b.take(prefix.len() as int) =~= prefix);
    assert(a.skip(prefix.len() as int) =~= seq![SLASH] + rest);
    assert(b.skip(prefix.len() as int) =~= rest);
    assert((seq![SLASH] + rest).skip(1) =~= rest);
    assert(a.len() != prefix.len());
    assert(b.len() != prefix.len());
    assert(seq![SLASH].skip(1) =~= Seq::<u8>::empty());
    empty_segments_make_no_difference(platform, dir, prefix, rest);
}

/// The index behind the last of a byte is behind it, and none follows.
proof fn lemma_after_last_is(s: Seq<u8>, b: u8, tail: Seq<u8>)
    requires
        !tail.contains(b),
    ensures
        after_last(s + seq![b] + tail, b) == s.len() + 1,
    decreases tail.len(),
{
    let all = s + seq![b] + tail;
    if tail.len() > 0 {
        assert(tail.contains(tail.last()));
        assert(all.last() == tail.last());
        assert(all.drop_last() =~= s + seq![b] + tail.drop_last());
        assert(!tail.drop_last().contains(b)) by {
            if tail.drop_last().contains(b) {
                let k = choose|k: int| 0 <= k < tail.drop_last().len() && tail.drop_last()[k] == b;
                assert(tail[k] == b);
            }
        }
        lemma_after_last_is(s, b, tail.drop_last());
    } else {
        assert(all.last() == b);
    }
}

/// Where there is no such byte, there is nothing before.
proof fn lemma_after_last_none(s: Seq<u8>, b: u8)
    requires
        !s.contains(b),
    ensures
        after_last(s, b) == 0,
    decreases s.len(),
{
    if s.len() > 0 {
        assert(s.contains(s.last()));
        assert(!s.drop_last().contains(b)) by {
            if s.drop_last().contains(b) {
                let k = choose|k: int| 0 <= k < s.drop_last().len() && s.drop_last()[k] == b;
                assert(s[k] == b);
            }
        }
        lemma_after_last_none(s.drop_last(), b);
    }
}

/// The file name of a path is what follows the last separator.
proof fn lemma_file_name(dir: Seq<u8>, name: Seq<u8>)
    requires
        name.len() > 0,
        name != seq![DOT],
        name != seq![DOT, DOT],
        !name.contains(SLASH),
    ensures
        file_name(dir + seq![SLASH] + name) == Some(name),
        trim_tail(dir + seq![SLASH] + name) == dir + seq![SLASH] + name,
        file_name(name) == Some(name),
        trim_tail(name) == name,
{
    let path = dir + seq![SLASH] + name;
    assert(name.contains(name.last()));
    assert(path.last() == name.last());
    if path.len() > 1 && path.last() == DOT && path[path.len() - 2] == SLASH {
        if name.len() == 1 {
            assert(name =~= seq![DOT]);
        } else {
            assert(path[path.len() - 2] == name[name.len() - 2]);
            assert(name.contains(name[name.len() - 2]));
        }
    }
    assert(trim_tail(path) == path);
    lemma_after_last_is(dir, SLASH, name);
    assert(path.skip(dir.len() + 1 as int) =~= name);
    if name.len() > 1 && name[name.len() - 2] == SLASH {
        assert(name.contains(name[name.len() - 2]));
    }
    assert(trim_tail(name) == name);
    lemma_after_last_none(name, SLASH);
    assert(name.skip(0) =~= name);
}

/// The extension of a file is what follows the last dot of its name. A name without a dot has
/// none, and neither has one with a dot only at its beginning.
pub proof fn the_extension_follows_the_last_dot(dir: Seq<u8>, stem: Seq<u8>, ext: Seq<u8>)
    requires
        stem.len() > 0,
        stem != seq![DOT],
        !stem.contains(SLASH),
        !ext.contains(SLASH),
        !ext.contains(DOT),
    ensures
        extension_of(dir + seq![SLASH] + stem + seq![DOT] + ext) == ext,
        extension_of(stem + seq![DOT] + ext) == ext,
        !stem.contains(DOT) ==> extension_of(dir + seq![SLASH] + stem).len() == 0,
        ext.len() > 0 ==> extension_of(dir + seq![SLASH] + seq![DOT] + ext).len() == 0,
{
    let name = stem + seq![DOT] + ext;
    assert(!name.contains(SLASH)) by {
        if name.contains(SLASH) {
            let k = choose|k: int| 0 <= k < name.len() && name[k] == SLASH;
            if k < stem.len() {
                assert(stem[k] == SLASH);
            } else if k > stem.len() {
                assert(ext[k - stem.len() - 1] == SLASH);
            }
        }
    }
    if name == seq![DOT, DOT] {
        assert(stem =~= seq![DOT]);
    }
    lemma_file_name(dir, name);
    lemma_after_last_is(stem, DOT, ext);
    assert(name.skip(stem.len() + 1 as int) =~= ext);
    assert(dir + seq![SLASH] + stem + seq![DOT] + ext =~= dir + seq![SLASH] + name);
    if !stem.contains(DOT) {
        if stem == seq![DOT, DOT] {
            assert(stem[0] == DOT);
        }
        lemma_file_name(dir, stem);
        lemma_after_last_none(stem, DOT);
    }
    if ext.len() > 0 {
        let hidden = seq![DOT] + ext;
        assert(!hidden.contains(SLASH)) by {
            if hidden.contains(SLASH) {
                let k = choose|k: int| 0 <= k < hidden.len() && hidden[k] == SLASH;
                assert(ext[k - 1] == SLASH);
            }
        }
        if hidden == seq![DOT, DOT] {
            assert(ext[0] == hidden[1]);
            assert(ext.contains(DOT));
        }
        lemma_file_name(dir, hidden);
        lemma_after_last_is(Seq::empty(), DOT, ext);
        assert(Seq::<u8>::empty() + seq![DOT] + ext =~= hidden);
        assert(dir + seq![SLASH] + seq![DOT] + ext =~= dir + seq![SLASH] + hidden);
    }
}

/// A compressed version of a file stands next to it, under its name with an extension added.
pub proof fn an_extension_is_added_to_the_name(dir: Seq<u8>, name: Seq<u8>, ext: Seq<u8>)
    requires
        name.len() > 0,
        name != seq![DOT],
        name != seq![DOT, DOT],
        !name.contains(SLASH),
    ensures
        with_extension(dir + seq![SLASH] + name, ext) == dir + seq![SLASH] + name + seq![DOT] + ext,
        with_extension(name, ext) == name + seq![DOT] + ext,
{
    lemma_file_name(dir, name);
    assert(with_extension(name, ext) =~= name + seq![DOT] + ext);
    assert(with_extension(dir + seq![SLASH] + name, ext) =~= dir + seq![SLASH] + name + seq![DOT]
        + ext);
}

/// Names are added to a path that ends in a separator, or is empty, without one between.
proof fn lemma_joined_directly(dir: Seq<u8>, segments: Seq<Seq<u8>>)
    requires
        segments.len() > 0,
        all_name(segments),
        forall|i: int| 0 <= i < segments.len() ==> !(#[trigger] segments[i]).contains(SLASH),
        dir.len() == 0 || dir.last() == SLASH,
    ensures
        joined_all(dir, segments) == dir + joined_by(segments, SLASH),
    decreases segments.len(),
{
    let head = segments.drop_last();
    let last = segments.last();
    assert(segments[segments.len() - 1].len() > 0);
    if head.len() == 0 {
        assert(joined_all(dir, head) == dir);
        assert(segments =~= seq![last]);
        assert(joined_all(dir, segments) == joined(dir, last));
        assert(joined(dir, last) =~= dir + last);
    } else {
        assert forall|i: int| 0 <= i < head.len() implies (#[trigger] head[i]).len() > 0 && head[i]
            != seq![DOT] && head[i] != seq![DOT, DOT] && !head[i].contains(SLASH) by {
            assert(head[i] == segments[i]);
        }
        lemma_joined_directly(dir, head);
        lemma_ends_in_a_name(head);
        lemma_joined_by_push(head, last);
        assert(head.push(last) =~= segments);
        let base = joined_all(dir, head);
        assert(base.last() == joined_by(head, SLASH).last());
        assert(joined_all(dir, segments) == base.push(SLASH) + last);
        assert(base.push(SLASH) + last =~= dir + (joined_by(head, SLASH) + seq![SLASH] + last));
    }
}

/// Names that are joined end in the last of them.
proof fn lemma_ends_in_a_name(segments: Seq<Seq<u8>>)
    requires
        segments.len() > 0,
        all_name(segments),
        forall|i: int| 0 <= i < segments.len() ==> !(#[trigger] segments[i]).contains(SLASH),
    ensures
        joined_by(segments, SLASH).len() > 0,
        joined_by(segments, SLASH).last() != SLASH,
{
    let head = segments.drop_last();
    let last = segments.last();
    assert(segments[segments.len() - 1].len() > 0);
    assert(last.contains(last.last()));
    if head.len() == 0 {
        assert(segments =~= seq![last]);
    } else {
        lemma_joined_by_push(head, last);
        assert(head.push(last) =~= segments);
    }
}

/// Names below a directory whose path ends in a separator, or is empty, follow it directly.
pub proof fn no_separator_is_doubled(platform: Platform, dir: Seq<u8>, segments: Seq<Seq<u8>>)
    requires
        segments.len() > 0,
        are_segments(platform, segments),
        all_name(segments),
        dir.len() == 0 || dir.last() == SLASH,
    ensures
        below(platform, dir, joined_by(segments, SLASH)) == dir + joined_by(segments, SLASH),
{
    lemma_segments(platform, segments);
    lemma_all_kept(segments);
    assert forall|i: int| 0 <= i < segments.len() implies !(#[trigger] segments[i]).contains(
        SLASH,
    ) by {
        assert(is_segment(platform, segments[i]));
    }
    lemma_joined_directly(dir, segments);
}

/// The reason why a path is refused is the first that holds of these: it has a NUL, it begins
/// with a drive or two backslashes, it begins with a separator, it has a `..` segment.
pub proof fn refusals_say_what_is_wrong(platform: Platform, segments: Seq<Seq<u8>>)
    requires
        segments.len() > 0,
        are_segments(platform, segments),
        path_fault(platform, joined_by(segments, SLASH)) is Some,
        platform == Platform::Windows ==> !(segments.len() > 2 && segments[0].len() == 0
            && segments[1].len() == 0),
    ensures
        path_fault(platform, joined_by(segments, SLASH)) == Some(
            if joined_by(segments, SLASH).contains(0) {
                "path contains NUL byte"@
            } else if starts_with_a_prefix(platform, joined_by(segments, SLASH)) {
                "path contains a prefix"@
            } else if segments[0].len() == 0 {
                "path is absolute"@
            } else {
                "path contains .. segment"@
            },
        ),
{
    let p = joined_by(segments, SLASH);
    lemma_segments(platform, segments);
    lemma_no_backslash(platform, segments);
    only_unsafe_paths_are_refused(platform, segments);
    assert(is_segment(platform, segments[0]));
    if segments[0].len() > 0 {
        assert(p[0] == segments[0][0]);
        assert(segments[0].contains(segments[0][0]));
    } else if segments.len() > 1 {
        assert(p[0] == SLASH);
        let rest = segments.skip(1);
        assert(rest[0] == segments[1]);
        assert(is_segment(platform, segments[1]));
        assert(p =~= seq![SLASH] + joined_by(rest, SLASH));
        if p.len() >= 2 && p[1] == SLASH && segments[1].len() > 0 {
            assert(p[1] == segments[1][0]);
            assert(segments[1].contains(segments[1][0]));
        }
    }
}

/// Separators and `.` segments at the end of a path do not change what its file name is, and so
/// neither its extension nor where a compressed version of it stands.
pub proof fn the_end_of_a_path_makes_no_difference(path: Seq<u8>, ext: Seq<u8>)
    ensures
        extension_of(path + seq![SLASH]) == extension_of(path),
        with_extension(path + seq![SLASH], ext) == (if file_name(path) is Some {
            with_extension(path, ext)
        } else {
            path + seq![SLASH]
        }),
        extension_of(path + seq![SLASH, DOT]) == extension_of(path),
        file_name(path + seq![SLASH]) == file_name(path),
        file_name(path + seq![SLASH, DOT]) == file_name(path),
{
    let a = path + seq![SLASH];
    let b = path + seq![SLASH, DOT];
    assert(a.drop_last() =~= path);
    assert(b.drop_last() =~= a);
    assert(a.last() == SLASH);
    assert(trim_tail(a) == trim_tail(path));
    assert(b.last() == DOT && b[b.len() - 2] == SLASH);
    assert(trim_tail(b) == trim_tail(a));
}

/// On Windows, a backslash separates segments as a slash does.
pub proof fn backslashes_separate_on_windows(dir: Seq<u8>, a: Seq<u8>, b: Seq<u8>)
    ensures
        below(Platform::Windows, dir, a + seq![BACKSLASH] + b) == below(
            Platform::Windows,
            dir,
            a + seq![SLASH] + b,
        ),
        a.len() > 0 && a[0] != BACKSLASH && a[0] != SLASH && !starts_with_a_prefix(
            Platform::Windows,
            a + seq![BACKSLASH] + b,
        ) ==> (path_fault(Platform::Windows, a + seq![BACKSLASH] + b) is Some <==> path_fault(
            Platform::Windows,
            a + seq![SLASH] + b,
        ) is Some),
{
    let p = a + seq![BACKSLASH] + b;
    let q = a + seq![SLASH] + b;
    assert(with_slashes(Platform::Windows, p) =~= with_slashes(Platform::Windows, q));
    if p.contains(0) {
        let k = choose|k: int| 0 <= k < p.len() && p[k] == 0;
        assert(q[k] == 0);
    }
    if q.contains(0) {
        let k = choose|k: int| 0 <= k < q.len() && q[k] == 0;
        assert(p[k] == 0);
    }
    assert(p[0] == q[0] || a.len() == 0);
}

} // verus!
