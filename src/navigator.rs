//! The current location as a stack of path segments.
use vstd::prelude::*;
use crate::listing::PathType;

verus! {

/// The text of each segment.
pub open spec fn segments_view(segments: Seq<String>) -> Seq<Seq<char>> {
    segments.map_values(|s: String| s@)
}

/// The absolute path of a segment stack: each segment preceded by `/`.
pub open spec fn joined(segments: Seq<Seq<char>>) -> Seq<char>
    decreases segments.len(),
{
    if segments.len() == 0 {
        Seq::empty()
    } else {
        joined(segments.drop_last()) + seq!['/'] + segments.last()
    }
}

/// Reading a path text up to its end: the segments completed so far and
/// the characters of the one in progress. `/` ends a segment; an empty
/// segment is dropped.
pub open spec fn split_progress(p: Seq<char>) -> (Seq<Seq<char>>, Seq<char>)
    decreases p.len(),
{
    if p.len() == 0 {
        (Seq::empty(), Seq::empty())
    } else {
        let (done, current) = split_progress(p.drop_last());
        if p.last() == '/' {
            (if current.len() > 0 { done.push(current) } else { done }, Seq::empty())
        } else {
            (done, current.push(p.last()))
        }
    }
}

/// The non-empty segments of a path text, in order.
pub open spec fn path_segments(p: Seq<char>) -> Seq<Seq<char>> {
    let (done, current) = split_progress(p);
    if current.len() > 0 {
        done.push(current)
    } else {
        done
    }
}

/// A well-formed segment: not empty, no separator in it.
pub open spec fn is_segment(s: Seq<char>) -> bool {
    s.len() > 0 && !s.contains('/')
}

proof fn lemma_split_progress(p: Seq<char>)
    ensures
        forall|k: int|
            0 <= k < split_progress(p).0.len() ==> is_segment(#[trigger] split_progress(p).0[k]),
        !split_progress(p).1.contains('/'),
    decreases p.len(),
{
    if p.len() > 0 {
        lemma_split_progress(p.drop_last());
        let (done, current) = split_progress(p.drop_last());
        if p.last() != '/' {
            assert forall|k: int| 0 <= k < current.push(p.last()).len() implies current.push(
                p.last(),
            )[k] != '/' by {
                if k < current.len() {
                    assert(!current.contains('/'));
                    assert(current[k] != '/');
                }
            }
        }
    }
}

/// Splits a path text into its non-empty segments. The leading `/` of an
/// absolute path, and repeated or trailing separators, give no segment.
pub fn new(directory: &str) -> (r: Vec<String>)
    ensures
        segments_view(r@) == path_segments(directory@),
        forall|k: int| 0 <= k < r@.len() ==> is_segment(#[trigger] r@[k]@),
{
    let n = directory.unicode_len();
    let mut out: Vec<String> = Vec::new();
    let mut start: usize = 0;
    let mut i: usize = 0;
    assert(directory@.take(0) =~= Seq::<char>::empty());
    while i < n
        invariant
            n == directory@.len(),
            start <= i <= n,
            split_progress(directory@.take(i as int)) == (
                segments_view(out@),
                directory@.subrange(start as int, i as int),
            ),
        decreases n - i,
    {
        let c = directory.get_char(i);
        assert(directory@.take(i + 1).drop_last() =~= directory@.take(i as int));
        if c == '/' {
            if start < i {
                let piece = String::from_str(directory.substring_char(start, i));
                out.push(piece);
                assert(segments_view(out@) =~= segments_view(out@.drop_last()).push(piece@));
            }
            start = i + 1;
        } else {
            assert(directory@.subrange(start as int, i + 1) =~= directory@.subrange(
                start as int,
                i as int,
            ).push(c));
        }
        i = i + 1;
    }
    assert(directory@.take(n as int) =~= directory@);
    if start < n {
        let piece = String::from_str(directory.substring_char(start, n));
        out.push(piece);
        assert(segments_view(out@) =~= segments_view(out@.drop_last()).push(piece@));
    }
    proof {
        lemma_split_progress(directory@);
        assert forall|k: int| 0 <= k < out@.len() implies is_segment(#[trigger] out@[k]@) by {
            assert(segments_view(out@)[k] == out@[k]@);
            let (done, current) = split_progress(directory@);
            if k < done.len() {
                assert(is_segment(split_progress(directory@).0[k]));
            } else {
                assert(path_segments(directory@)[k] == current);
            }
        }
    }
    out
}

/// Joins segments into an absolute path: `/` before each segment.
pub fn get(path: Vec<String>) -> (r: String)
    ensures
        r@ == joined(segments_view(path@)),
{
    let mut r = String::new();
    let mut i: usize = 0;
    proof {
        reveal_strlit("/");
        assert(segments_view(path@).take(0) =~= Seq::<Seq<char>>::empty());
    }
    while i < path.len()
        invariant
            i <= path@.len(),
            r@ == joined(segments_view(path@).take(i as int)),
            "/"@ == seq!['/'],
        decreases path.len() - i,
    {
        r.append("/");
        r.append(path[i].as_str());
        assert(segments_view(path@).take(i + 1).drop_last() =~= segments_view(path@).take(
            i as int,
        ));
        i = i + 1;
    }
    assert(segments_view(path@).take(i as int) =~= segments_view(path@));
    r
}

/// A location: the text of each segment, and whether it names a directory
/// or a file.
pub struct PathView {
    pub segments: Seq<Seq<char>>,
    pub kind: PathType,
}

/// The location after stepping into the child `name` of kind `kind`.
pub open spec fn pushed(v: PathView, name: Seq<char>, kind: PathType) -> PathView {
    PathView { segments: v.segments.push(name), kind }
}

/// The location after going back one level: the root segment stays, and
/// going back always lands on a directory.
pub open spec fn popped(v: PathView) -> PathView {
    if v.segments.len() > 1 {
        PathView { segments: v.segments.drop_last(), kind: PathType::Directory }
    } else {
        v
    }
}

/// Where the user currently is. The first segment is the root of the
/// navigation and is never removed.
pub struct PathState {
    segments: Vec<String>,
    kind: PathType,
}

impl View for PathState {
    type V = PathView;

    closed spec fn view(&self) -> PathView {
        PathView { segments: segments_view(self.segments@), kind: self.kind }
    }
}

/// Copies a segment stack string by string.
fn copy_segments(segments: &Vec<String>) -> (r: Vec<String>)
    ensures
        r@.len() == segments@.len(),
        segments_view(r@) == segments_view(segments@),
{
    let mut r: Vec<String> = Vec::new();
    let mut i: usize = 0;
    while i < segments.len()
        invariant
            i <= segments@.len(),
            r@.len() == i,
            segments_view(r@) == segments_view(segments@).take(i as int),
        decreases segments.len() - i,
    {
        let ghost before = r@;
        let piece = String::from_str(segments[i].as_str());
        r.push(piece);
        assert(segments_view(r@) =~= segments_view(before).push(piece@));
        assert(segments_view(r@) =~= segments_view(segments@).take(i + 1));
        i = i + 1;
    }
    assert(segments_view(segments@).take(i as int) =~= segments_view(segments@));
    r
}

impl PathState {
    /// The root segment is always there.
    pub closed spec fn wf(&self) -> bool {
        self.segments@.len() >= 1
    }

    /// The starting location at the working directory `directory`, a
    /// directory. There is none where `directory` has no segment.
    pub fn resolve(directory: &str) -> (r: Option<PathState>)
        ensures
            match r {
                Some(s) => s.wf() && s@ == (PathView {
                    segments: path_segments(directory@),
                    kind: PathType::Directory,
                }),
                None => path_segments(directory@).len() == 0,
            },
    {
        let segments = new(directory);
        if segments.len() == 0 {
            None
        } else {
            Some(PathState { segments, kind: PathType::Directory })
        }
    }

    /// Replaces the whole location.
    pub fn reset(&mut self, segments: Vec<String>, kind: PathType)
        requires
            segments@.len() >= 1,
        ensures
            final(self).wf(),
            final(self)@ == (PathView { segments: segments_view(segments@), kind }),
    {
        self.segments = segments;
        self.kind = kind;
    }

    /// Steps into the child `name`, of kind `kind`.
    pub fn push(&mut self, name: String, kind: PathType)
        requires
            old(self).wf(),
        ensures
            final(self).wf(),
            final(self)@ == pushed(old(self)@, name@, kind),
    {
        self.segments.push(name);
        self.kind = kind;
        assert(segments_view(self.segments@) =~= segments_view(old(self).segments@).push(name@));
    }

    /// Goes back one level; at the root nothing changes.
    pub fn pop(&mut self)
        requires
            old(self).wf(),
        ensures
            final(self).wf(),
            final(self)@ == popped(old(self)@),
    {
        if self.segments.len() > 1 {
            self.segments.pop();
            self.kind = PathType::Directory;
            assert(segments_view(self.segments@) =~= segments_view(
                old(self).segments@,
            ).drop_last());
        }
    }

    /// The number of segments, the root included.
    pub fn depth(&self) -> (r: usize)
        requires
            self.wf(),
        ensures
            r == self@.segments.len(),
            r >= 1,
    {
        self.segments.len()
    }

    /// The segments, the root first.
    pub fn segments(&self) -> (r: &Vec<String>)
        ensures
            segments_view(r@) == self@.segments,
    {
        &self.segments
    }

    /// Whether the location is a directory or a file.
    pub fn kind(&self) -> (r: PathType)
        ensures
            r == self@.kind,
    {
        self.kind
    }

    /// The absolute path of the location.
    pub fn path(&self) -> (r: String)
        ensures
            r@ == joined(self@.segments),
    {
        get(copy_segments(&self.segments))
    }

    /// A copy of the location, to key a request with.
    pub fn snapshot(&self) -> (r: PathState)
        requires
            self.wf(),
        ensures
            r.wf(),
            r@ == self@,
    {
        PathState { segments: copy_segments(&self.segments), kind: self.kind }
    }

    /// Whether the location is still the one that `snapshot` recorded.
    pub fn is_current(&self, snapshot: &PathState) -> (r: bool)
        ensures
            r == (self@ == snapshot@),
    {
        if self.kind != snapshot.kind || self.segments.len() != snapshot.segments.len() {
            assert(segments_view(self.segments@).len() == self.segments@.len());
            assert(segments_view(snapshot.segments@).len() == snapshot.segments@.len());
            return false;
        }
        let mut i: usize = 0;
        while i < self.segments.len()
            invariant
                self.segments@.len() == snapshot.segments@.len(),
                i <= self.segments@.len(),
                forall|k: int| 0 <= k < i ==> #[trigger] self.segments@[k]@ == snapshot.segments@[k]@,
            decreases self.segments.len() - i,
        {
            if self.segments[i] != snapshot.segments[i] {
                assert(segments_view(self.segments@)[i as int] != segments_view(
                    snapshot.segments@,
                )[i as int]);
                return false;
            }
            i = i + 1;
        }
        assert(segments_view(self.segments@) =~= segments_view(snapshot.segments@));
        true
    }

    /// The directory to list for this location: its path where it is a
    /// directory, none where it is a file.
    pub fn listing_request(&self) -> (r: Option<String>)
        ensures
            match r {
                Some(p) => self@.kind == PathType::Directory && p@ == joined(self@.segments),
                None => self@.kind == PathType::File,
            },
    {
        match self.kind {
            PathType::Directory => Some(self.path()),
            PathType::File => None,
        }
    }

    /// The file to load for this location: its path where it is a file,
    /// none where it is a directory.
    pub fn file_request(&self) -> (r: Option<String>)
        ensures
            match r {
                Some(p) => self@.kind == PathType::File && p@ == joined(self@.segments),
                None => self@.kind == PathType::Directory,
            },
    {
        match self.kind {
            PathType::File => Some(self.path()),
            PathType::Directory => None,
        }
    }
}

/// Stepping into a child and straight back restores the segments exactly,
/// on a directory.
pub proof fn lemma_push_then_pop(v: PathView, name: Seq<char>, kind: PathType)
    requires
        v.segments.len() >= 1,
    ensures
        popped(pushed(v, name, kind)) == (PathView { segments: v.segments, kind: PathType::Directory }),
{
    assert(v.segments.push(name).drop_last() =~= v.segments);
}

/// Going back at the root changes nothing.
pub proof fn lemma_pop_at_root(v: PathView)
    requires
        v.segments.len() == 1,
    ensures
        popped(v) == v,
{
}

} // verus!
