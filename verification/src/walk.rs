//! What holds of every resolution: where exact names lead, what a wildcard
//! binds, and where a resolution fails.

use vstd::prelude::*;
use crate::entry::{
    base_name, first_exact, is_exact, is_wildcard, last_wildcard, lemma_first_exact,
    lemma_last_wildcard, selected, Choice, DirEntry,
};
use crate::octets::join;
use crate::resolver::{bound, level, resolve, Resolution, State};

verus! {

/// The state after the first `n` segments have been matched; `None` where
/// the resolution ends before that.
pub open spec fn reached(tree: Map<Seq<u8>, Seq<DirEntry>>, s: State, n: nat) -> Option<State>
    decreases n,
{
    if n == 0 {
        Some(s)
    } else {
        match reached(tree, s, (n - 1) as nat) {
            Some(t) => if t.remaining.len() > 0 && tree.dom().contains(t.dir) {
                level(tree[t.dir], t)
            } else {
                None
            },
            None => None,
        }
    }
}

/// The directory `root/segments[0]/../segments[n - 1]`.
pub open spec fn literal_dir(root: Seq<u8>, segments: Seq<Seq<u8>>, n: nat) -> Seq<u8>
    decreases n,
{
    if n == 0 {
        root
    } else {
        join(literal_dir(root, segments, (n - 1) as nat), segments[n - 1])
    }
}

/// A state reached on the way has the segments behind it matched, and
/// resolves as the state that the way began in.
pub proof fn lemma_reached(tree: Map<Seq<u8>, Seq<DirEntry>>, s: State, n: nat)
    requires
        reached(tree, s, n) is Some,
    ensures
        n <= s.remaining.len(),
        reached(tree, s, n)->0.remaining == s.remaining.skip(n as int),
        resolve(tree, reached(tree, s, n)->0) == resolve(tree, s),
    decreases n,
{
    if n == 0 {
        assert(s.remaining.skip(0) =~= s.remaining);
    } else {
        lemma_reached(tree, s, (n - 1) as nat);
        assert(reached(tree, s, n)->0.remaining =~= s.remaining.skip(n as int));
    }
}

/// An entry is selected exactly where some entry matches exactly or is a
/// wildcard.
pub proof fn lemma_selected(entries: Seq<DirEntry>, target: Seq<u8>, leaf: bool)
    ensures
        match selected(entries, target, leaf) {
            Choice::Exact(i) => {
                &&& first_exact(entries, target, leaf) == Some(i)
                &&& 0 <= i < entries.len()
                &&& is_exact(entries[i], target, leaf)
            },
            Choice::Wildcard(i) => {
                &&& last_wildcard(entries, leaf) == Some(i)
                &&& 0 <= i < entries.len()
                &&& is_wildcard(entries[i], leaf)
                &&& forall|j: int|
                    0 <= j < entries.len() ==> !is_exact(#[trigger] entries[j], target, leaf)
            },
            Choice::Nothing => forall|j: int|
                0 <= j < entries.len() ==> !is_exact(#[trigger] entries[j], target, leaf)
                    && !is_wildcard(entries[j], leaf),
        },
{
    lemma_first_exact(entries, target, leaf);
    lemma_last_wildcard(entries, leaf);
}

/// A listing may end with an exact match: what follows the match does not
/// change the selection, nor the level.
pub proof fn theorem_listing_may_stop(entries: Seq<DirEntry>, s: State, i: int)
    requires
        s.remaining.len() > 0,
        0 <= i < entries.len(),
        is_exact(entries[i], s.remaining[0], s.remaining.len() == 1),
    ensures
        selected(entries.take(i + 1), s.remaining[0], s.remaining.len() == 1) == selected(
            entries,
            s.remaining[0],
            s.remaining.len() == 1,
        ),
        level(entries.take(i + 1), s) == level(entries, s),
{
    let leaf = s.remaining.len() == 1;
    let target = s.remaining[0];
    let front = entries.take(i + 1);
    lemma_first_exact(entries, target, leaf);
    lemma_first_exact(front, target, leaf);
    assert(front[i] == entries[i]);
    let a = first_exact(entries, target, leaf)->0;
    let b = first_exact(front, target, leaf)->0;
    assert(front[b] == entries[b]);
    assert(front[a] == entries[a]);
}

/// An exact match is selected before any wildcard: where some entry has the
/// segment as its base name, the first such entry is selected, whatever
/// wildcards stand beside it, and the level binds no parameter.
pub proof fn theorem_exact_precedes_wildcard(entries: Seq<DirEntry>, s: State, j: int)
    requires
        s.remaining.len() > 0,
        0 <= j < entries.len(),
        is_exact(entries[j], s.remaining[0], s.remaining.len() == 1),
    ensures
        selected(entries, s.remaining[0], s.remaining.len() == 1) matches Choice::Exact(i) && 0
            <= i <= j && is_exact(entries[i], s.remaining[0], s.remaining.len() == 1) && level(
            entries,
            s,
        ) == Some(
            State {
                dir: join(s.dir, entries[i].name@),
                remaining: s.remaining.skip(1),
                params: s.params,
            },
        ),
{
    lemma_selected(entries, s.remaining[0], s.remaining.len() == 1);
    lemma_first_exact(entries, s.remaining[0], s.remaining.len() == 1);
}

/// Where no entry has the segment as its base name and some entry is a
/// wildcard, the last wildcard is selected and the level is passed. What
/// follows the sentinel in the wildcard's base name then names the parameter
/// that holds the segment; a wildcard named by the sentinel alone binds
/// nothing.
pub proof fn theorem_wildcard_stands_in(entries: Seq<DirEntry>, s: State, j: int)
    requires
        s.remaining.len() > 0,
        forall|i: int|
            0 <= i < entries.len() ==> !is_exact(
                #[trigger] entries[i],
                s.remaining[0],
                s.remaining.len() == 1,
            ),
        0 <= j < entries.len(),
        is_wildcard(entries[j], s.remaining.len() == 1),
    ensures
        ({
            let leaf = s.remaining.len() == 1;
            &&& selected(entries, s.remaining[0], leaf) matches Choice::Wildcard(k)
            &&& j <= k < entries.len()
            &&& is_wildcard(entries[k], leaf)
            &&& level(entries, s) matches Some(next)
            &&& next.dir == join(s.dir, entries[k].name@)
            &&& next.remaining == s.remaining.skip(1)
            &&& base_name(entries[k], leaf).len() > 1 ==> next.params == s.params.insert(
                base_name(entries[k], leaf).skip(1),
                s.remaining[0],
            )
            &&& base_name(entries[k], leaf).len() == 1 ==> next.params == s.params
        }),
{
    lemma_selected(entries, s.remaining[0], s.remaining.len() == 1);
    lemma_last_wildcard(entries, s.remaining.len() == 1);
}

/// Where every segment has an entry of its own name (a directory on the
/// way, a file with that stem at the end), the resolution follows the
/// segments literally and binds no parameter: it finds, in the directory
/// that the segments before the last spell out, the first file whose stem is
/// the last segment.
pub proof fn theorem_exact_path(tree: Map<Seq<u8>, Seq<DirEntry>>, s: State)
    requires
        s.remaining.len() > 0,
        forall|n: nat|
            n < s.remaining.len() ==> tree.dom().contains(
                #[trigger] literal_dir(s.dir, s.remaining, n),
            ) && first_exact(
                tree[literal_dir(s.dir, s.remaining, n)],
                s.remaining[n as int],
                n + 1 == s.remaining.len(),
            ) is Some,
    ensures
        ({
            let last = (s.remaining.len() - 1) as nat;
            let dir = literal_dir(s.dir, s.remaining, last);
            let file = first_exact(tree[dir], s.remaining[last as int], true)->0;
            &&& 0 <= file < tree[dir].len()
            &&& is_exact(tree[dir][file], s.remaining[last as int], true)
            &&& resolve(tree, s) == Resolution::Found {
                script: join(dir, tree[dir][file].name@),
                params: s.params,
            }
        }),
{
    let last = (s.remaining.len() - 1) as nat;
    lemma_literal_way(tree, s, last);
    let t = reached(tree, s, last)->0;
    lemma_reached(tree, s, last);
    assert(t.remaining[0] == s.remaining[last as int]);
    assert(t.remaining.len() == 1);
    assert(tree.dom().contains(literal_dir(s.dir, s.remaining, last)));
    lemma_selected(tree[t.dir], t.remaining[0], true);
    let next = level(tree[t.dir], t)->0;
    assert(next.remaining.len() == 0);
    assert(resolve(tree, t) == resolve(tree, next));
}

/// On a way of exact names, the state after `n` segments is in the directory
/// that they spell out, with the parameters untouched.
proof fn lemma_literal_way(tree: Map<Seq<u8>, Seq<DirEntry>>, s: State, n: nat)
    requires
        n < s.remaining.len(),
        forall|k: nat|
            k < s.remaining.len() ==> tree.dom().contains(
                #[trigger] literal_dir(s.dir, s.remaining, k),
            ) && first_exact(
                tree[literal_dir(s.dir, s.remaining, k)],
                s.remaining[k as int],
                k + 1 == s.remaining.len(),
            ) is Some,
    ensures
        reached(tree, s, n) == Some(
            State {
                dir: literal_dir(s.dir, s.remaining, n),
                remaining: s.remaining.skip(n as int),
                params: s.params,
            },
        ),
    decreases n,
{
    if n == 0 {
        assert(s.remaining.skip(0) =~= s.remaining);
    } else {
        let m = (n - 1) as nat;
        lemma_literal_way(tree, s, m);
        let t = reached(tree, s, m)->0;
        assert(tree.dom().contains(literal_dir(s.dir, s.remaining, m)));
        assert(t.remaining[0] == s.remaining[m as int]);
        assert(t.remaining.len() != 1);
        lemma_selected(tree[t.dir], t.remaining[0], false);
        let next = level(tree[t.dir], t)->0;
        assert(next.remaining =~= s.remaining.skip(n as int));
    }
}

/// A resolution fails with `NotFound`, and names the directory reached
/// joined with the segment, where no entry of the kind looked for has the
/// segment as its base name or is a wildcard, whatever lies deeper.
pub proof fn theorem_no_match_is_not_found(tree: Map<Seq<u8>, Seq<DirEntry>>, s: State, n: nat)
    requires
        n < s.remaining.len(),
        reached(tree, s, n) is Some,
        tree.dom().contains(reached(tree, s, n)->0.dir),
        forall|j: int|
            0 <= j < tree[reached(tree, s, n)->0.dir].len() ==> {
                let entry = #[trigger] tree[reached(tree, s, n)->0.dir][j];
                &&& !is_exact(entry, s.remaining[n as int], n + 1 == s.remaining.len())
                &&& !is_wildcard(entry, n + 1 == s.remaining.len())
            },
    ensures
        resolve(tree, s) == (Resolution::NotFound {
            path: join(reached(tree, s, n)->0.dir, s.remaining[n as int]),
        }),
{
    let t = reached(tree, s, n)->0;
    lemma_reached(tree, s, n);
    assert(t.remaining[0] == s.remaining[n as int]);
    lemma_selected(tree[t.dir], t.remaining[0], t.remaining.len() == 1);
}

/// The parameters that a resolution ends with are those it began with,
/// overlaid with those bound on the way; nothing else of its outcome
/// depends on the parameters it began with.
pub proof fn lemma_parameters_overlay(tree: Map<Seq<u8>, Seq<DirEntry>>, s: State)
    ensures
        match resolve(tree, State { params: Map::empty(), ..s }) {
            Resolution::Found { script, params } => resolve(tree, s) == (Resolution::Found {
                script,
                params: s.params.union_prefer_right(params),
            }),
            Resolution::NotFound { path } => resolve(tree, s) == Resolution::NotFound { path },
            Resolution::Unlisted { dir } => resolve(tree, s) == Resolution::Unlisted { dir },
        },
    decreases s.remaining.len(),
{
    let bare = State { params: Map::empty(), ..s };
    if s.remaining.len() == 0 {
        assert(s.params.union_prefer_right(Map::<Seq<u8>, Seq<u8>>::empty()) =~= s.params);
    } else if tree.dom().contains(s.dir) {
        match level(tree[s.dir], s) {
            None => {},
            Some(next) => {
                let bare_next = level(tree[s.dir], bare)->0;
                let fresh = State { params: Map::empty(), ..next };
                assert(fresh == State { params: Map::empty(), ..bare_next });
                lemma_parameters_overlay(tree, next);
                lemma_parameters_overlay(tree, bare_next);
                match resolve(tree, fresh) {
                    Resolution::Found { script, params } => {
                        assert(next.params.union_prefer_right(params) =~= s.params.union_prefer_right(
                            bare_next.params.union_prefer_right(params),
                        ));
                    },
                    _ => {},
                }
            },
        }
    }
}

/// Where a wildcard with a name stands in for segment `n`, and the rest of
/// the way is found without that name being bound again, the resolution is
/// found and the parameter of that name holds the segment as it was given.
pub proof fn theorem_wildcard_binds_segment(
    tree: Map<Seq<u8>, Seq<DirEntry>>,
    s: State,
    n: nat,
    j: int,
)
    requires
        n < s.remaining.len(),
        reached(tree, s, n) is Some,
        tree.dom().contains(reached(tree, s, n)->0.dir),
        forall|i: int|
            0 <= i < tree[reached(tree, s, n)->0.dir].len() ==> !is_exact(
                #[trigger] tree[reached(tree, s, n)->0.dir][i],
                s.remaining[n as int],
                n + 1 == s.remaining.len(),
            ),
        last_wildcard(tree[reached(tree, s, n)->0.dir], n + 1 == s.remaining.len()) == Some(j),
        base_name(tree[reached(tree, s, n)->0.dir][j], n + 1 == s.remaining.len()).len() > 1,
        ({
            let t = reached(tree, s, n)->0;
            let entry = tree[t.dir][j];
            let name = base_name(entry, n + 1 == s.remaining.len()).skip(1);
            let rest = State {
                dir: join(t.dir, entry.name@),
                remaining: s.remaining.skip(n as int + 1),
                params: Map::empty(),
            };
            resolve(tree, rest) matches Resolution::Found { params, .. } && !params.dom().contains(
                name,
            )
        }),
    ensures
        ({
            let t = reached(tree, s, n)->0;
            let name = base_name(tree[t.dir][j], n + 1 == s.remaining.len()).skip(1);
            &&& resolve(tree, s) matches Resolution::Found { params, .. }
            &&& params.dom().contains(name)
            &&& params[name] == s.remaining[n as int]
        }),
{
    let t = reached(tree, s, n)->0;
    let leaf = n + 1 == s.remaining.len();
    lemma_reached(tree, s, n);
    assert(t.remaining[0] == s.remaining[n as int]);
    lemma_selected(tree[t.dir], t.remaining[0], leaf);
    let next = level(tree[t.dir], t)->0;
    assert(next.remaining =~= s.remaining.skip(n as int + 1));
    assert(resolve(tree, t) == resolve(tree, next));
    lemma_parameters_overlay(tree, next);
}

/// Where a wildcard named by the sentinel alone stands in for segment `n`,
/// the level binds nothing: the resolution goes on from the wildcard with
/// the parameters bound before it.
pub proof fn theorem_bare_wildcard_binds_nothing(
    tree: Map<Seq<u8>, Seq<DirEntry>>,
    s: State,
    n: nat,
    j: int,
)
    requires
        n < s.remaining.len(),
        reached(tree, s, n) is Some,
        tree.dom().contains(reached(tree, s, n)->0.dir),
        forall|i: int|
            0 <= i < tree[reached(tree, s, n)->0.dir].len() ==> !is_exact(
                #[trigger] tree[reached(tree, s, n)->0.dir][i],
                s.remaining[n as int],
                n + 1 == s.remaining.len(),
            ),
        last_wildcard(tree[reached(tree, s, n)->0.dir], n + 1 == s.remaining.len()) == Some(j),
        base_name(tree[reached(tree, s, n)->0.dir][j], n + 1 == s.remaining.len()).len() == 1,
    ensures
        ({
            let t = reached(tree, s, n)->0;
            resolve(tree, s) == resolve(
                tree,
                State {
                    dir: join(t.dir, tree[t.dir][j].name@),
                    remaining: s.remaining.skip(n as int + 1),
                    params: t.params,
                },
            )
        }),
{
    let t = reached(tree, s, n)->0;
    let leaf = n + 1 == s.remaining.len();
    lemma_reached(tree, s, n);
    assert(t.remaining[0] == s.remaining[n as int]);
    lemma_selected(tree[t.dir], t.remaining[0], leaf);
    let next = level(tree[t.dir], t)->0;
    assert(next.remaining =~= s.remaining.skip(n as int + 1));
    assert(resolve(tree, t) == resolve(tree, next));
}

} // verus!
