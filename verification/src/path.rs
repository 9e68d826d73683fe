//! Relative paths as sequences of segments, and their place below a root.

use crate::text::{lemma_split_append, lemma_split_unmarked, split, split_at_mark};
use vstd::prelude::*;

verus! {

/// Whether a segment may stand in a path below a category's root: it is not
/// empty, holds no slash, and does not start with a dot. The last excludes
/// hidden entries and the segments `.` and `..`.
pub open spec fn safe_segment(segment: Seq<char>) -> bool {
    segment.len() > 0 && segment[0] != '.' && !segment.contains('/')
}

/// Whether every segment of a path is safe.
pub open spec fn safe_path(segments: Seq<Seq<char>>) -> bool {
    forall|i: int| 0 <= i < segments.len() ==> safe_segment(#[trigger] segments[i])
}

/// Whether a segment may stand in a path below a category's root.
pub fn is_safe_segment(segment: &str) -> (safe: bool)
    ensures
        safe == safe_segment(segment@),
{
    if segment.is_empty() || segment.get_char(0) == '.' {
        return false;
    }
    let mut slash = false;
    for c in it: segment.chars()
        invariant
            it.seq() == segment@,
            slash == exists|i: int| 0 <= i < it.index() && segment@[i] == '/',
    {
        if c == '/' {
            slash = true;
        }
    }
    !slash
}

/// Whether every segment of a path is safe.
pub fn is_safe_path(segments: &Vec<String>) -> (safe: bool)
    ensures
        safe == safe_path(segments.deep_view()),
{
    let mut i: usize = 0;
    while i < segments.len()
        invariant
            i <= segments.len(),
            forall|k: int| 0 <= k < i ==> safe_segment(#[trigger] segments.deep_view()[k]),
        decreases segments.len() - i,
    {
        if !is_safe_segment(segments[i].as_str()) {
            assert(segments.deep_view()[i as int] == segments[i as int]@);
            return false;
        }
        assert(segments.deep_view()[i as int] == segments[i as int]@);
        i += 1;
    }
    true
}

/// The pieces that are not empty, in order.
pub open spec fn without_empty(pieces: Seq<Seq<char>>) -> Seq<Seq<char>>
    decreases pieces.len(),
{
    if pieces.len() == 0 {
        Seq::empty()
    } else if pieces.last().len() == 0 {
        without_empty(pieces.drop_last())
    } else {
        without_empty(pieces.drop_last()).push(pieces.last())
    }
}

/// The segments of a path written with slashes: the pieces between the
/// slashes, without the empty ones.
pub open spec fn segments_of(text: Seq<char>) -> Seq<Seq<char>> {
    without_empty(split(text, '/'))
}

/// Reads the segments of a path written with slashes.
pub fn path_segments(text: &str) -> (segments: Vec<String>)
    ensures
        segments.deep_view() == segments_of(text@),
{
    let mut pieces = split_at_mark(text, '/');
    let ghost all = pieces.deep_view();
    let mut segments: Vec<String> = Vec::new();
    let mut i: usize = 0;
    assert(segments.deep_view() =~= without_empty(all.take(0)));
    while i < pieces.len()
        invariant
            i <= pieces.len(),
            pieces.deep_view() == all,
            segments.deep_view() == without_empty(all.take(i as int)),
        decreases pieces.len() - i,
    {
        let ghost before = segments.deep_view();
        proof {
            assert(all.take(i + 1).drop_last() =~= all.take(i as int));
            assert(all.take(i + 1).last() == pieces[i as int]@);
        }
        if !pieces[i].as_str().is_empty() {
            let piece = String::from_str(pieces[i].as_str());
            segments.push(piece);
            assert(segments.deep_view() =~= before.push(piece@));
        }
        i += 1;
    }
    assert(all.take(pieces.len() as int) =~= all);
    segments
}

/// A path with one more segment: a slash stands between the two unless the
/// path is empty or already ends in one.
pub open spec fn with_segment(path: Seq<char>, segment: Seq<char>) -> Seq<char> {
    if path.len() == 0 || path.last() == '/' {
        path + segment
    } else {
        path + seq!['/'] + segment
    }
}

/// The location of the resource at `segments` below `root`.
pub open spec fn location(root: Seq<char>, segments: Seq<Seq<char>>) -> Seq<char>
    decreases segments.len(),
{
    if segments.len() == 0 {
        root
    } else {
        with_segment(location(root, segments.drop_last()), segments.last())
    }
}

/// Whether a text ends in a slash.
fn ends_in_slash(text: &str) -> (ends: bool)
    ensures
        ends == (text@.len() > 0 && text@.last() == '/'),
{
    let len = text.unicode_len();
    len > 0 && text.get_char(len - 1) == '/'
}

/// Appends one segment to a path.
pub fn push_segment(path: &mut String, segment: &str)
    ensures
        final(path)@ == with_segment(old(path)@, segment@),
{
    if !(path.as_str().is_empty() || ends_in_slash(path.as_str())) {
        proof {
            reveal_strlit("/");
            assert("/"@ =~= seq!['/']);
        }
        path.append("/");
    }
    path.append(segment);
}

/// The location of the resource at the first `count` segments below `root`.
pub(crate) fn locate_first(root: &str, segments: &Vec<String>, count: usize) -> (path: String)
    requires
        count <= segments.len(),
    ensures
        path@ == location(root@, segments.deep_view().take(count as int)),
{
    let mut path = String::from_str(root);
    let mut i: usize = 0;
    assert(segments.deep_view().take(0) =~= Seq::<Seq<char>>::empty());
    while i < count
        invariant
            i <= count <= segments.len(),
            path@ == location(root@, segments.deep_view().take(i as int)),
        decreases count - i,
    {
        proof {
            let after = segments.deep_view().take(i + 1);
            assert(after.drop_last() =~= segments.deep_view().take(i as int));
            assert(after.last() == segments[i as int]@);
        }
        push_segment(&mut path, segments[i].as_str());
        i += 1;
    }
    path
}

/// The location of the resource at `segments` below `root`.
pub fn locate(root: &str, segments: &Vec<String>) -> (path: String)
    ensures
        path@ == location(root@, segments.deep_view()),
{
    assert(segments.deep_view().take(segments.len() as int) =~= segments.deep_view());
    locate_first(root, segments, segments.len())
}

/// A location starts with its root, and each segment that is not empty makes
/// it longer.
pub proof fn lemma_location_extends_root(root: Seq<char>, segments: Seq<Seq<char>>)
    ensures
        root.is_prefix_of(location(root, segments)),
        segments.len() > 0 && segments.last().len() > 0 ==> location(root, segments).len()
            > root.len(),
    decreases segments.len(),
{
    if segments.len() > 0 {
        let parent = location(root, segments.drop_last());
        lemma_location_extends_root(root, segments.drop_last());
        let path = with_segment(parent, segments.last());
        assert(parent.is_prefix_of(path));
        assert(root =~= path.subrange(0, root.len() as int));
    } else {
        assert(root =~= root.subrange(0, root.len() as int));
    }
}

/// Of the safe paths, only the empty one leads to the root itself.
pub proof fn lemma_root_only_at_empty_path(root: Seq<char>, segments: Seq<Seq<char>>)
    requires
        safe_path(segments),
    ensures
        location(root, segments) == root <==> segments.len() == 0,
{
    if segments.len() > 0 {
        assert(safe_segment(segments[segments.len() - 1]));
        lemma_location_extends_root(root, segments);
    }
}

/// Whether a path lies below a root: it starts with the root, and what
/// follows holds, between its slashes, only safe segments and empty pieces.
/// So no step of it leads up or to a hidden entry.
pub open spec fn below_root(root: Seq<char>, path: Seq<char>) -> bool {
    &&& root.is_prefix_of(path)
    &&& forall|i: int|
        0 <= i < split(path.skip(root.len() as int), '/').len() ==> {
            let piece = #[trigger] split(path.skip(root.len() as int), '/')[i];
            piece.len() == 0 || safe_segment(piece)
        }
}

/// Every location of a safe path lies below its root. A location of a path
/// that is not empty does not end in a slash.
pub proof fn lemma_location_is_below_root(root: Seq<char>, segments: Seq<Seq<char>>)
    requires
        safe_path(segments),
    ensures
        below_root(root, location(root, segments)),
        segments.len() > 0 ==> location(root, segments).len() > 0 && location(
            root,
            segments,
        ).last() != '/',
    decreases segments.len(),
{
    let path = location(root, segments);
    lemma_location_extends_root(root, segments);
    if segments.len() == 0 {
        assert(path.skip(root.len() as int) =~= Seq::<char>::empty());
        lemma_split_unmarked(Seq::<char>::empty(), '/');
    } else {
        let earlier = segments.drop_last();
        let last = segments.last();
        assert(safe_segment(segments[segments.len() - 1]));
        assert forall|i: int| 0 <= i < earlier.len() implies safe_segment(
            #[trigger] earlier[i],
        ) by {
            assert(earlier[i] == segments[i]);
        }
        lemma_location_is_below_root(root, earlier);
        lemma_location_extends_root(root, earlier);
        let parent = location(root, earlier);
        let before = parent.skip(root.len() as int);
        let after = path.skip(root.len() as int);
        assert(path.last() == last.last());
        assert(last.contains(last.last()));
        if parent.len() == 0 || parent.last() == '/' {
            assert(earlier.len() == 0);
            assert(after =~= last);
            lemma_split_unmarked(last, '/');
        } else {
            assert(after =~= before + seq!['/'] + last);
            lemma_split_append(before, last, '/');
            let pieces = split(after, '/');
            assert forall|i: int| 0 <= i < pieces.len() implies {
                let piece = #[trigger] pieces[i];
                piece.len() == 0 || safe_segment(piece)
            } by {
                if i < pieces.len() - 1 {
                    assert(pieces[i] == split(before, '/')[i]);
                }
            }
        }
    }
}

} // verus!
