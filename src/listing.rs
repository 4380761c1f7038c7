//! Directory entries and their display order.
use vstd::prelude::*;
use core::cmp::Ordering;

verus! {

/// Whether a filesystem node is a directory or a regular file.
#[derive(Clone, Copy, Debug, PartialEq, Eq, Structural)]
pub enum PathType {
    Directory,
    File,
}

/// One child of a listed directory: its final path segment and its kind.
#[derive(Debug)]
pub struct File {
    pub name: String,
    pub path_type: PathType,
}

/// A genuine filesystem failure: the path concerned and the system's message.
#[derive(Debug)]
pub struct IoFailure {
    pub path: String,
    pub message: String,
}

/// Ordinal order on names: character by character by code point, a proper
/// prefix first. On UTF-8 text this is the byte-wise order.
pub open spec fn name_order(a: Seq<char>, b: Seq<char>) -> Ordering
    decreases a.len(),
{
    if a.len() == 0 {
        if b.len() == 0 {
            Ordering::Equal
        } else {
            Ordering::Less
        }
    } else if b.len() == 0 {
        Ordering::Greater
    } else if a[0] < b[0] {
        Ordering::Less
    } else if a[0] > b[0] {
        Ordering::Greater
    } else {
        name_order(a.drop_first(), b.drop_first())
    }
}

/// Display order of entries: directories before files, then by name.
pub open spec fn file_order(a: File, b: File) -> Ordering {
    match (a.path_type, b.path_type) {
        (PathType::Directory, PathType::File) => Ordering::Less,
        (PathType::File, PathType::Directory) => Ordering::Greater,
        _ => name_order(a.name@, b.name@),
    }
}

/// `a` may stand before `b` in a listing.
pub open spec fn file_le(a: File, b: File) -> bool {
    file_order(a, b) != Ordering::Greater
}

/// Every entry may stand before every later one.
pub open spec fn is_ordered(s: Seq<File>) -> bool {
    forall|i: int, j: int| 0 <= i < j < s.len() ==> file_le(#[trigger] s[i], #[trigger] s[j])
}

proof fn lemma_name_order_flip(a: Seq<char>, b: Seq<char>)
    ensures
        (name_order(a, b) == Ordering::Less) == (name_order(b, a) == Ordering::Greater),
        (name_order(a, b) == Ordering::Equal) == (a == b),
    decreases a.len(),
{
    if a.len() > 0 && b.len() > 0 && a[0] == b[0] {
        lemma_name_order_flip(a.drop_first(), b.drop_first());
        if a.drop_first() == b.drop_first() {
            assert forall|k: int| 0 <= k < a.len() implies a[k] == b[k] by {
                if k > 0 {
                    assert(a[k] == a.drop_first()[k - 1]);
                    assert(b[k] == b.drop_first()[k - 1]);
                }
            }
            assert(a =~= b);
        }
    } else if a.len() == 0 && b.len() == 0 {
        assert(a =~= b);
    }
}

proof fn lemma_name_order_trans(a: Seq<char>, b: Seq<char>, c: Seq<char>)
    requires
        name_order(a, b) != Ordering::Greater,
        name_order(b, c) != Ordering::Greater,
    ensures
        name_order(a, c) != Ordering::Greater,
    decreases a.len(),
{
    if a.len() > 0 && b.len() > 0 && c.len() > 0 && a[0] == b[0] && b[0]
        == c[0] {
        lemma_name_order_trans(a.drop_first(), b.drop_first(), c.drop_first());
    }
}

/// The display order is total: of two entries one may stand before the other.
pub proof fn lemma_file_order_flip(a: File, b: File)
    ensures
        (file_order(a, b) == Ordering::Less) == (file_order(b, a) == Ordering::Greater),
{
    lemma_name_order_flip(a.name@, b.name@);
}

/// The display order is transitive.
pub proof fn lemma_file_le_trans(a: File, b: File, c: File)
    requires
        file_le(a, b),
        file_le(b, c),
    ensures
        file_le(a, c),
{
    if a.path_type == b.path_type && b.path_type == c.path_type {
        lemma_name_order_trans(a.name@, b.name@, c.name@);
    }
}

/// Compares two names in ordinal order.
pub fn compare_names(a: &str, b: &str) -> (r: Ordering)
    ensures
        r == name_order(a@, b@),
{
    let la = a.unicode_len();
    let lb = b.unicode_len();
    let mut i: usize = 0;
    assert(a@.skip(0) =~= a@);
    assert(b@.skip(0) =~= b@);
    while i < la && i < lb
        invariant
            i <= la,
            i <= lb,
            la == a@.len(),
            lb == b@.len(),
            name_order(a@, b@) == name_order(a@.skip(i as int), b@.skip(i as int)),
        decreases la - i,
    {
        let ca = a.get_char(i);
        let cb = b.get_char(i);
        if ca < cb {
            return Ordering::Less;
        }
        if ca > cb {
            return Ordering::Greater;
        }
        assert(a@.skip(i as int).drop_first() =~= a@.skip(i + 1));
        assert(b@.skip(i as int).drop_first() =~= b@.skip(i + 1));
        i = i + 1;
    }
    if la == lb {
        Ordering::Equal
    } else if i == la {
        Ordering::Less
    } else {
        Ordering::Greater
    }
}

/// Compares two entries in display order: directories first, then by name.
pub fn compare(a: &File, b: &File) -> (r: Ordering)
    ensures
        r == file_order(*a, *b),
{
    match (a.path_type, b.path_type) {
        (PathType::Directory, PathType::File) => Ordering::Less,
        (PathType::File, PathType::Directory) => Ordering::Greater,
        _ => compare_names(a.name.as_str(), b.name.as_str()),
    }
}

/// Puts entries in display order, keeping each one exactly once.
pub fn sort_files(files: Vec<File>) -> (r: Vec<File>)
    ensures
        is_ordered(r@),
        r@.to_multiset() == files@.to_multiset(),
{
    broadcast use vstd::seq_lib::group_to_multiset_ensures;

    let mut rest = files;
    let mut out: Vec<File> = Vec::new();
    while rest.len() > 0
        invariant
            is_ordered(out@),
            out@.to_multiset().add(rest@.to_multiset()) == files@.to_multiset(),
        decreases rest.len(),
    {
        let ghost before_rest = rest@;
        let item = rest.pop().unwrap();
        assert(before_rest =~= rest@.push(item));
        let mut p: usize = 0;
        while p < out.len() && matches!(compare(&out[p], &item), Ordering::Less)
            invariant
                p <= out.len(),
                forall|k: int| 0 <= k < p ==> file_order(#[trigger] out@[k], item) == Ordering::Less,
            decreases out.len() - p,
        {
            p = p + 1;
        }
        proof {
            if p < out.len() {
                lemma_file_order_flip(out@[p as int], item);
                assert forall|k: int| p <= k < out.len() implies file_le(item, #[trigger] out@[k]) by {
                    if k > p {
                        lemma_file_le_trans(item, out@[p as int], out@[k]);
                    }
                }
            }
        }
        let ghost before_out = out@;
        out.insert(p, item);
        proof {
            assert(out@[p as int] == item);
            assert forall|i: int, j: int| 0 <= i < j < out@.len() implies file_le(
                #[trigger] out@[i],
                #[trigger] out@[j],
            ) by {
                if j < p {
                } else if j == p {
                    assert(out@[i] == before_out[i]);
                } else if i < p {
                    assert(out@[i] == before_out[i]);
                    assert(out@[j] == before_out[j - 1]);
                    lemma_file_le_trans(before_out[i], item, before_out[j - 1]);
                } else if i == p {
                    assert(out@[j] == before_out[j - 1]);
                } else {
                    assert(out@[i] == before_out[i - 1]);
                    assert(out@[j] == before_out[j - 1]);
                }
            }
            vstd::seq_lib::to_multiset_insert(before_out, p as int, item);
            assert(out@.to_multiset() =~= before_out.to_multiset().insert(item));
            vstd::seq_lib::to_multiset_build(rest@, item);
            assert(before_rest.to_multiset() =~= rest@.to_multiset().insert(item));
            assert(out@.to_multiset().add(rest@.to_multiset()) =~= before_out.to_multiset().add(
                before_rest.to_multiset(),
            ));
        }
    }
    assert(rest@ =~= Seq::<File>::empty());
    assert(out@.to_multiset().add(rest@.to_multiset()) =~= out@.to_multiset());
    out
}

/// The earliest failure among the probed entries, if any.
pub open spec fn first_failure(found: Seq<Result<File, IoFailure>>) -> Option<IoFailure>
    decreases found.len(),
{
    if found.len() == 0 {
        None
    } else {
        match first_failure(found.drop_last()) {
            Some(e) => Some(e),
            None => match found.last() {
                Ok(_) => None,
                Err(e) => Some(e),
            },
        }
    }
}

/// The entries that were probed successfully, in the order found.
pub open spec fn found_files(found: Seq<Result<File, IoFailure>>) -> Seq<File>
    decreases found.len(),
{
    if found.len() == 0 {
        Seq::empty()
    } else {
        let before = found_files(found.drop_last());
        match found.last() {
            Ok(f) => before.push(f),
            Err(_) => before,
        }
    }
}

/// In an ordered listing every directory stands before every file, and
/// within each kind the names ascend.
pub proof fn lemma_ordered_listing_groups(s: Seq<File>)
    requires
        is_ordered(s),
    ensures
        forall|i: int, j: int|
            0 <= i < j < s.len() ==> !(#[trigger] s[i].path_type == PathType::File
                && #[trigger] s[j].path_type == PathType::Directory),
        forall|i: int, j: int|
            0 <= i < j < s.len() && #[trigger] s[i].path_type == #[trigger] s[j].path_type
                ==> name_order(s[i].name@, s[j].name@) != Ordering::Greater,
{
    assert forall|i: int, j: int| 0 <= i < j < s.len() implies !(#[trigger] s[i].path_type
        == PathType::File && #[trigger] s[j].path_type == PathType::Directory) by {
        assert(file_le(s[i], s[j]));
    }
    assert forall|i: int, j: int|
        0 <= i < j < s.len() && #[trigger] s[i].path_type == #[trigger] s[j].path_type implies name_order(
        s[i].name@,
        s[j].name@,
    ) != Ordering::Greater by {
        assert(file_le(s[i], s[j]));
    }
}

/// Turns the probes of a directory's children into a listing. One failed
/// probe fails the whole listing with the earliest failure: no partial
/// listing is ever returned. Otherwise every entry appears once, in display
/// order.
pub fn collect_listing(found: Vec<Result<File, IoFailure>>) -> (r: Result<Vec<File>, IoFailure>)
    ensures
        match first_failure(found@) {
            Some(e) => r == Err::<Vec<File>, IoFailure>(e),
            None => r matches Ok(files) && is_ordered(files@) && files@.to_multiset()
                == found_files(found@).to_multiset(),
        },
{
    broadcast use vstd::seq_lib::group_to_multiset_ensures;

    let mut rest = found;
    let mut failure: Option<IoFailure> = None;
    let mut files: Vec<File> = Vec::new();
    while rest.len() > 0
        invariant
            first_failure(found@) == match first_failure(rest@) {
                Some(e) => Some(e),
                None => failure,
            },
            files@.to_multiset().add(found_files(rest@).to_multiset()) == found_files(
                found@,
            ).to_multiset(),
        decreases rest.len(),
    {
        let ghost before = rest@;
        let probe = rest.pop().unwrap();
        assert(rest@ =~= before.drop_last());
        match probe {
            Ok(f) => {
                proof {
                    vstd::seq_lib::to_multiset_build(files@, f);
                    vstd::seq_lib::to_multiset_build(found_files(rest@), f);
                    assert(files@.push(f).to_multiset().add(found_files(rest@).to_multiset())
                        =~= files@.to_multiset().add(found_files(before).to_multiset()));
                }
                files.push(f);
            },
            Err(e) => {
                failure = Some(e);
            },
        }
    }
    assert(rest@ =~= Seq::<Result<File, IoFailure>>::empty());
    assert(files@.to_multiset().add(found_files(rest@).to_multiset()) =~= files@.to_multiset());
    match failure {
        Some(e) => Err(e),
        None => Ok(sort_files(files)),
    }
}

} // verus!
