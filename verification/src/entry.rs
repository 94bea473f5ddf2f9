//! The children of one directory, and the choice among them of the child
//! that a path segment addresses.

use vstd::prelude::*;
use crate::octets::prefix_is;

verus! {

/// First byte of the name of an entry that matches any segment.
pub const SENTINEL: u8 = 95u8;

/// Byte that sets a file's extension off from its stem.
pub const DOT: u8 = 46u8;

/// What kind of child a directory entry is.
#[derive(Clone, Copy, Debug, PartialEq, Eq)]
pub enum EntryKind {
    File,
    Directory,
    /// Neither a regular file nor a directory.
    Other,
}

/// A child of a directory: its full name and its kind.
#[derive(Debug)]
pub struct DirEntry {
    pub name: Vec<u8>,
    pub kind: EntryKind,
}

/// Position of the last `.` in `name`, or -1 where it holds none.
pub open spec fn last_dot(name: Seq<u8>) -> int
    decreases name.len(),
{
    if name.len() == 0 {
        -1
    } else if name.last() == DOT {
        name.len() - 1
    } else {
        last_dot(name.drop_last())
    }
}

/// `last_dot` is the one position that holds a `.` and has none behind it.
pub proof fn lemma_last_dot(name: Seq<u8>, p: int)
    ensures
        -1 <= last_dot(name) < name.len(),
        last_dot(name) >= 0 ==> name[last_dot(name)] == DOT,
        last_dot(name) < p < name.len() ==> name[p] != DOT,
    decreases name.len(),
{
    if name.len() > 0 && name.last() != DOT {
        lemma_last_dot(name.drop_last(), p);
    }
}

/// A file name without its extension: the name up to its last `.`. A name
/// that holds no `.`, or whose only `.` is its first byte, and the name `..`
/// are their own stem.
pub open spec fn stem(name: Seq<u8>) -> Seq<u8> {
    let p = last_dot(name);
    if p <= 0 || name == seq![DOT, DOT] {
        name
    } else {
        name.take(p)
    }
}

/// Length of the stem of `name`, which is that long a prefix of the name;
/// no name but the empty one has an empty stem.
pub fn stem_len(name: &[u8]) -> (n: usize)
    ensures
        n <= name.len(),
        name@.take(n as int) == stem(name@),
        n == 0 <==> name.len() == 0,
{
    let len = name.len();
    proof {
        assert(name@.take(len as int) =~= name@);
        lemma_last_dot(name@, 0);
    }
    if len == 2 && name[0] == DOT && name[1] == DOT {
        assert(name@ =~= seq![DOT, DOT]);
        return len;
    }
    let mut i: usize = len;
    while i > 0 && name[i - 1] != DOT
        invariant
            i <= len,
            len == name.len(),
            last_dot(name@) == last_dot(name@.take(i as int)),
        decreases i,
    {
        proof {
            let front = name@.take(i as int);
            assert(front.drop_last() =~= name@.take(i - 1));
        }
        i -= 1;
    }
    proof {
        if len == 2 {
            assert(name@ != seq![DOT, DOT]) by {
                if name@ == seq![DOT, DOT] {
                    assert(seq![DOT, DOT][0] == DOT);
                    assert(seq![DOT, DOT][1] == DOT);
                }
            }
        } else {
            assert(name@.len() != seq![DOT, DOT].len());
        }
    }
    if i <= 1 {
        len
    } else {
        i - 1
    }
}

/// The name under which an entry is compared with a segment: the stem of a
/// file at the end of a path, the full name of a directory on the way.
pub open spec fn base_name(entry: DirEntry, leaf: bool) -> Seq<u8> {
    if leaf {
        stem(entry.name@)
    } else {
        entry.name@
    }
}

/// Whether an entry is of the kind looked for: a file at the end of a path,
/// a directory on the way.
pub open spec fn eligible(entry: DirEntry, leaf: bool) -> bool {
    if leaf {
        entry.kind == EntryKind::File
    } else {
        entry.kind == EntryKind::Directory
    }
}

/// The entry is of the kind looked for and its base name is `target`.
pub open spec fn is_exact(entry: DirEntry, target: Seq<u8>, leaf: bool) -> bool {
    eligible(entry, leaf) && base_name(entry, leaf) == target
}

/// The entry is of the kind looked for and its base name begins with the
/// sentinel.
pub open spec fn is_wildcard(entry: DirEntry, leaf: bool) -> bool {
    eligible(entry, leaf) && base_name(entry, leaf).len() > 0 && base_name(entry, leaf)[0]
        == SENTINEL
}

/// Position of the first entry that matches `target` exactly.
pub open spec fn first_exact(entries: Seq<DirEntry>, target: Seq<u8>, leaf: bool) -> Option<int>
    decreases entries.len(),
{
    if entries.len() == 0 {
        None
    } else {
        match first_exact(entries.drop_last(), target, leaf) {
            Some(i) => Some(i),
            None => if is_exact(entries.last(), target, leaf) {
                Some(entries.len() - 1)
            } else {
                None
            },
        }
    }
}

/// Position of the last wildcard entry.
pub open spec fn last_wildcard(entries: Seq<DirEntry>, leaf: bool) -> Option<int>
    decreases entries.len(),
{
    if entries.len() == 0 {
        None
    } else if is_wildcard(entries.last(), leaf) {
        Some(entries.len() - 1)
    } else {
        last_wildcard(entries.drop_last(), leaf)
    }
}

/// `first_exact` gives an exact match that no exact match precedes, and
/// gives none only where no entry matches exactly.
pub proof fn lemma_first_exact(entries: Seq<DirEntry>, target: Seq<u8>, leaf: bool)
    ensures
        match first_exact(entries, target, leaf) {
            Some(i) => {
                &&& 0 <= i < entries.len()
                &&& is_exact(entries[i], target, leaf)
                &&& forall|j: int| 0 <= j < i ==> !is_exact(#[trigger] entries[j], target, leaf)
            },
            None => forall|j: int|
                0 <= j < entries.len() ==> !is_exact(#[trigger] entries[j], target, leaf),
        },
    decreases entries.len(),
{
    if entries.len() > 0 {
        let front = entries.drop_last();
        lemma_first_exact(front, target, leaf);
        match first_exact(front, target, leaf) {
            Some(i) => {
                assert(front[i] == entries[i]);
                assert forall|j: int| 0 <= j < i implies !is_exact(
                    #[trigger] entries[j],
                    target,
                    leaf,
                ) by {
                    assert(front[j] == entries[j]);
                }
            },
            None => {
                assert forall|j: int| 0 <= j < entries.len() - 1 implies !is_exact(
                    #[trigger] entries[j],
                    target,
                    leaf,
                ) by {
                    assert(front[j] == entries[j]);
                }
            },
        }
    }
}

/// `last_wildcard` gives a wildcard that no wildcard follows, and gives none
/// only where no entry is a wildcard.
pub proof fn lemma_last_wildcard(entries: Seq<DirEntry>, leaf: bool)
    ensures
        match last_wildcard(entries, leaf) {
            Some(i) => {
                &&& 0 <= i < entries.len()
                &&& is_wildcard(entries[i], leaf)
                &&& forall|j: int|
                    i < j < entries.len() ==> !is_wildcard(#[trigger] entries[j], leaf)
            },
            None => forall|j: int|
                0 <= j < entries.len() ==> !is_wildcard(#[trigger] entries[j], leaf),
        },
    decreases entries.len(),
{
    if entries.len() > 0 && !is_wildcard(entries.last(), leaf) {
        let front = entries.drop_last();
        lemma_last_wildcard(front, leaf);
        match last_wildcard(front, leaf) {
            Some(i) => {
                assert(front[i] == entries[i]);
                assert forall|j: int| i < j < entries.len() implies !is_wildcard(
                    #[trigger] entries[j],
                    leaf,
                ) by {
                    if j < entries.len() - 1 {
                        assert(front[j] == entries[j]);
                    }
                }
            },
            None => {
                assert forall|j: int| 0 <= j < entries.len() implies !is_wildcard(
                    #[trigger] entries[j],
                    leaf,
                ) by {
                    if j < entries.len() - 1 {
                        assert(front[j] == entries[j]);
                    }
                }
            },
        }
    }
}

/// An exact match at `i` that no exact match precedes is what `first_exact`
/// gives.
pub proof fn lemma_first_exact_is(entries: Seq<DirEntry>, target: Seq<u8>, leaf: bool, i: int)
    requires
        0 <= i < entries.len(),
        is_exact(entries[i], target, leaf),
        forall|j: int| 0 <= j < i ==> !is_exact(#[trigger] entries[j], target, leaf),
    ensures
        first_exact(entries, target, leaf) == Some(i),
{
    lemma_first_exact(entries, target, leaf);
}

/// The entry of a directory that a segment addresses.
#[derive(Clone, Copy, Debug, PartialEq, Eq)]
pub enum Selection {
    /// The entry at this position has the segment as its base name.
    Exact(usize),
    /// No entry has the segment as its base name; the entry at this position
    /// is the wildcard that stands in.
    Wildcard(usize),
    /// No entry matches.
    Nothing,
}

/// The entry of a directory that a segment addresses, by position.
pub enum Choice {
    Exact(int),
    Wildcard(int),
    Nothing,
}

impl View for Selection {
    type V = Choice;

    open spec fn view(&self) -> Choice {
        match *self {
            Selection::Exact(i) => Choice::Exact(i as int),
            Selection::Wildcard(i) => Choice::Wildcard(i as int),
            Selection::Nothing => Choice::Nothing,
        }
    }
}

/// The entry that `target` addresses among `entries`: the first exact match;
/// where there is none, the last wildcard.
pub open spec fn selected(entries: Seq<DirEntry>, target: Seq<u8>, leaf: bool) -> Choice {
    match first_exact(entries, target, leaf) {
        Some(i) => Choice::Exact(i),
        None => match last_wildcard(entries, leaf) {
            Some(i) => Choice::Wildcard(i),
            None => Choice::Nothing,
        },
    }
}

/// Whether `entry` is of the kind looked for.
pub fn is_eligible(entry: &DirEntry, leaf: bool) -> (r: bool)
    ensures
        r == eligible(*entry, leaf),
{
    match entry.kind {
        EntryKind::File => leaf,
        EntryKind::Directory => !leaf,
        EntryKind::Other => false,
    }
}

/// Length of the base name of `entry`, which is that long a prefix of its
/// name.
pub fn base_len(entry: &DirEntry, leaf: bool) -> (n: usize)
    ensures
        n <= entry.name.len(),
        entry.name@.take(n as int) == base_name(*entry, leaf),
{
    if leaf {
        stem_len(entry.name.as_slice())
    } else {
        assert(entry.name@.take(entry.name.len() as int) =~= entry.name@);
        entry.name.len()
    }
}

/// Scans one directory for the entry that `target` addresses.
pub fn select_entry(entries: &Vec<DirEntry>, target: &[u8], leaf: bool) -> (r: Selection)
    ensures
        r@ == selected(entries@, target@, leaf),
{
    let mut wildcard: Option<usize> = None;
    let mut i: usize = 0;
    while i < entries.len()
        invariant
            i <= entries.len(),
            forall|j: int| 0 <= j < i ==> !is_exact(#[trigger] entries@[j], target@, leaf),
            match wildcard {
                Some(w) => w < i && is_wildcard(entries@[w as int], leaf) && forall|j: int|
                    w < j < i ==> !is_wildcard(#[trigger] entries@[j], leaf),
                None => forall|j: int| 0 <= j < i ==> !is_wildcard(#[trigger] entries@[j], leaf),
            },
        decreases entries.len() - i,
    {
        let entry = &entries[i];
        if is_eligible(entry, leaf) {
            let n = base_len(entry, leaf);
            if prefix_is(entry.name.as_slice(), n, target) {
                proof {
                    lemma_first_exact_is(entries@, target@, leaf, i as int);
                }
                return Selection::Exact(i);
            } else if n > 0 && entry.name[0] == SENTINEL {
                wildcard = Some(i);
            }
        }
        i += 1;
    }
    proof {
        lemma_first_exact(entries@, target@, leaf);
        lemma_last_wildcard(entries@, leaf);
    }
    match wildcard {
        Some(w) => Selection::Wildcard(w),
        None => Selection::Nothing,
    }
}

} // verus!
