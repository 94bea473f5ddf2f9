//! Resolution of a request path against a tree of directories: one
//! directory per segment, an exact name before a wildcard.

use vstd::prelude::*;
use crate::entry::{
    base_len, base_name, is_eligible, is_exact, lemma_first_exact, lemma_last_wildcard,
    select_entry, selected, Choice, DirEntry, Selection,
};
use crate::error::Error;
use crate::octets::{copy, copy_range, join, join_path, prefix_is};
use crate::table::{content, ByteMap, Table};
use crate::tree::DirTree;

verus! {

/// Where a resolution stands: the directory reached, the segments still to
/// match, and the parameters bound so far.
#[verifier::ext_equal]
pub struct State {
    pub dir: Seq<u8>,
    pub remaining: Seq<Seq<u8>>,
    pub params: Map<Seq<u8>, Seq<u8>>,
}

/// How a resolution ends.
#[verifier::ext_equal]
pub enum Resolution {
    /// Every segment matched: the path of the script and the parameters.
    Found { script: Seq<u8>, params: Map<Seq<u8>, Seq<u8>> },
    /// No entry matched a segment: the directory it was looked for in, joined
    /// with the segment.
    NotFound { path: Seq<u8> },
    /// A directory on the way cannot be listed.
    Unlisted { dir: Seq<u8> },
}

/// The parameters after a wildcard `entry` has stood in for `target`: what
/// follows the sentinel in its base name, where anything does, names the
/// parameter that holds `target`.
pub open spec fn bound(
    entry: DirEntry,
    leaf: bool,
    target: Seq<u8>,
    params: Map<Seq<u8>, Seq<u8>>,
) -> Map<Seq<u8>, Seq<u8>> {
    let base = base_name(entry, leaf);
    if base.len() > 1 {
        params.insert(base.skip(1), target)
    } else {
        params
    }
}

/// One level of a resolution: the state after the first remaining segment
/// has been matched against `entries`, the listing of the directory reached;
/// `None` where nothing matches.
pub open spec fn level(entries: Seq<DirEntry>, s: State) -> Option<State>
    recommends
        s.remaining.len() > 0,
{
    let target = s.remaining[0];
    let leaf = s.remaining.len() == 1;
    match selected(entries, target, leaf) {
        Choice::Exact(i) => Some(
            State {
                dir: join(s.dir, entries[i].name@),
                remaining: s.remaining.skip(1),
                params: s.params,
            },
        ),
        Choice::Wildcard(i) => Some(
            State {
                dir: join(s.dir, entries[i].name@),
                remaining: s.remaining.skip(1),
                params: bound(entries[i], leaf, target, s.params),
            },
        ),
        Choice::Nothing => None,
    }
}

/// The resolution from state `s` in `tree`, which maps each directory that
/// can be listed to its listing.
pub open spec fn resolve(tree: Map<Seq<u8>, Seq<DirEntry>>, s: State) -> Resolution
    decreases s.remaining.len(),
{
    if s.remaining.len() == 0 {
        Resolution::Found { script: s.dir, params: s.params }
    } else if !tree.dom().contains(s.dir) {
        Resolution::Unlisted { dir: s.dir }
    } else {
        match level(tree[s.dir], s) {
            None => Resolution::NotFound { path: join(s.dir, s.remaining[0]) },
            Some(next) => resolve(tree, next),
        }
    }
}

/// A resolution in progress.
pub struct Resolver {
    dir: Vec<u8>,
    segments: Vec<Vec<u8>>,
    depth: usize,
    params: ByteMap,
}

impl View for Resolver {
    type V = State;

    closed spec fn view(&self) -> State {
        State {
            dir: self.dir@,
            remaining: self.segments.deep_view().skip(self.depth as int),
            params: content(self.params@),
        }
    }
}

/// What one level of a resolution comes to.
pub enum Walk {
    /// The last segment matched.
    Found { script: Vec<u8>, params: ByteMap },
    /// The segment matched nothing.
    NotFound { path: Vec<u8> },
    /// The segment matched a directory, which is to be listed next.
    Pending(Resolver),
}

impl Walk {
    /// This is what the level from state `s` comes to in a directory that
    /// lists as `entries`.
    pub open spec fn follows(&self, s: State, entries: Seq<DirEntry>) -> bool {
        match level(entries, s) {
            None => *self matches Walk::NotFound { path } && path@ == join(s.dir, s.remaining[0]),
            Some(next) => if next.remaining.len() == 0 {
                &&& *self matches Walk::Found { script, params }
                &&& params.wf()
                &&& script@ == next.dir
                &&& content(params@) == next.params
            } else {
                &&& *self matches Walk::Pending(resolver)
                &&& resolver.wf()
                &&& resolver@ == next
            },
        }
    }
}

impl Resolver {
    /// A segment is left to match, and the parameters are a map.
    pub closed spec fn wf(&self) -> bool {
        self.depth < self.segments.len() && self.params.wf()
    }

    /// A resolution in progress has a segment left.
    pub proof fn lemma_segment_left(&self)
        requires
            self.wf(),
        ensures
            self@.remaining.len() > 0,
    {
    }

    /// The resolution of `segments` from the directory `root`.
    pub fn new(root: Vec<u8>, segments: Vec<Vec<u8>>) -> (r: Self)
        requires
            segments.len() > 0,
        ensures
            r.wf(),
            r@ == (State {
                dir: root@,
                remaining: segments.deep_view(),
                params: Map::empty(),
            }),
    {
        let r = Resolver { dir: root, segments, depth: 0, params: Table::new() };
        proof {
            assert(r@.remaining =~= segments.deep_view());
            assert(r@.params =~= Map::empty());
        }
        r
    }

    /// The directory whose listing `advance` is to be given.
    pub fn directory(&self) -> (r: &Vec<u8>)
        ensures
            r@ == self@.dir,
    {
        &self.dir
    }

    /// Whether `entry`, a child of `directory()`, has the next segment as
    /// its base name: a listing that ends with such an entry is advanced as
    /// the whole listing would be.
    pub fn settles(&self, entry: &DirEntry) -> (r: bool)
        requires
            self.wf(),
        ensures
            r == is_exact(*entry, self@.remaining[0], self@.remaining.len() == 1),
    {
        let leaf = self.depth + 1 == self.segments.len();
        let target = &self.segments[self.depth];
        proof {
            assert(self@.remaining[0] == target@);
            assert(self@.remaining.len() == self.segments.len() - self.depth);
        }
        if is_eligible(entry, leaf) {
            let n = base_len(entry, leaf);
            prefix_is(entry.name.as_slice(), n, target.as_slice())
        } else {
            false
        }
    }

    /// Matches the next segment against `listing`, the children of
    /// `directory()`.
    pub fn advance(self, listing: &Vec<DirEntry>) -> (w: Walk)
        requires
            self.wf(),
        ensures
            w.follows(self@, listing@),
    {
        let ghost s = self@;
        let Resolver { dir, segments, depth, params } = self;
        let mut params = params;
        let leaf = depth + 1 == segments.len();
        let target = &segments[depth];
        proof {
            assert(s.remaining[0] == target@);
            assert(s.remaining.len() == segments.len() - depth);
            lemma_first_exact(listing@, target@, leaf);
            lemma_last_wildcard(listing@, leaf);
        }
        match select_entry(listing, target.as_slice(), leaf) {
            Selection::Nothing => Walk::NotFound { path: join_path(dir, target.as_slice()) },
            Selection::Exact(i) => {
                let next = join_path(dir, listing[i].name.as_slice());
                Self::arrive(next, segments, depth, params, Ghost(s), Ghost(s.params))
            },
            Selection::Wildcard(i) => {
                let entry = &listing[i];
                let n = base_len(entry, leaf);
                if n > 1 {
                    let name = copy_range(entry.name.as_slice(), 1, n);
                    let value = copy(target.as_slice());
                    proof {
                        let base = base_name(*entry, leaf);
                        assert(name@ =~= base.skip(1));
                        assert(content(params@.insert(name@, value)) =~= content(
                            params@,
                        ).insert(name@, value@));
                    }
                    params.insert(name, value);
                }
                let next = join_path(dir, entry.name.as_slice());
                Self::arrive(
                    next,
                    segments,
                    depth,
                    params,
                    Ghost(s),
                    Ghost(bound(*entry, leaf, s.remaining[0], s.params)),
                )
            },
        }
    }

    fn arrive(
        dir: Vec<u8>,
        segments: Vec<Vec<u8>>,
        depth: usize,
        params: ByteMap,
        Ghost(s): Ghost<State>,
        Ghost(now): Ghost<Map<Seq<u8>, Seq<u8>>>,
    ) -> (w: Walk)
        requires
            depth < segments.len(),
            params.wf(),
            content(params@) == now,
            s.remaining == segments.deep_view().skip(depth as int),
        ensures
            ({
                let next = State { dir: dir@, remaining: s.remaining.skip(1), params: now };
                if next.remaining.len() == 0 {
                    &&& w matches Walk::Found { script, params: p }
                    &&& p.wf()
                    &&& script@ == next.dir
                    &&& content(p@) == next.params
                } else {
                    &&& w matches Walk::Pending(resolver)
                    &&& resolver.wf()
                    &&& resolver@ == next
                }
            }),
    {
        if depth + 1 == segments.len() {
            Walk::Found { script: dir, params }
        } else {
            let r = Resolver { dir, segments, depth: depth + 1, params };
            proof {
                assert(r@.remaining =~= s.remaining.skip(1));
            }
            Walk::Pending(r)
        }
    }
}

/// The state in which the resolution of `segments` from `root` begins.
pub open spec fn start(root: Seq<u8>, segments: Seq<Seq<u8>>) -> State {
    State { dir: root, remaining: segments, params: Map::empty() }
}

/// Whether `r` reports the resolution `resolution` in a tree whose missing
/// directories fail with `failure`.
pub open spec fn reports(
    r: Result<(Vec<u8>, ByteMap), Error>,
    resolution: Resolution,
    failure: Seq<char>,
) -> bool {
    match resolution {
        Resolution::Found { script, params } => {
            &&& r matches Ok(found)
            &&& found.0@ == script
            &&& found.1.wf()
            &&& content(found.1@) == params
        },
        Resolution::NotFound { path } => r matches Err(Error::NotFound(at)) && at@ == path,
        Resolution::Unlisted { dir } => r matches Err(Error::Io(description)) && description@
            == failure,
    }
}

/// Resolves `path`, segment by segment, from the directory `cur_dir` in
/// `tree`: the path of the script that the segments address and the
/// parameters that wildcards on the way have bound. Fails with `NotFound`
/// where a segment matches nothing, and with `Io` where a directory on the
/// way is not in the tree.
#[verifier::loop_isolation(false)]
pub fn find_mock(tree: &DirTree, cur_dir: Vec<u8>, path: Vec<Vec<u8>>) -> (r: Result<
    (Vec<u8>, ByteMap),
    Error,
>)
    requires
        tree.wf(),
        path.len() > 0,
    ensures
        reports(r, resolve(tree@, start(cur_dir@, path.deep_view())), tree.failure()),
{
    let ghost goal = resolve(tree@, start(cur_dir@, path.deep_view()));
    let mut walker = Resolver::new(cur_dir, path);
    loop
        invariant
            tree.wf(),
            walker.wf(),
            resolve(tree@, walker@) == goal,
        decreases walker@.remaining.len(),
    {
        proof {
            walker.lemma_segment_left();
        }
        let listing = match tree.list(walker.directory()) {
            Some(listing) => listing,
            None => {
                return Err(Error::Io(tree.failure_text()));
            },
        };
        let ghost before = walker@;
        match walker.advance(listing) {
            Walk::Found { script, params } => {
                proof {
                    let next = level(listing@, before)->0;
                    assert(resolve(tree@, next) == Resolution::Found {
                        script: next.dir,
                        params: next.params,
                    });
                }
                return Ok((script, params));
            },
            Walk::NotFound { path } => {
                return Err(Error::NotFound(path));
            },
            Walk::Pending(next) => {
                walker = next;
            },
        }
    }
}

} // verus!
