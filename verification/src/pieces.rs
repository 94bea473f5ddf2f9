//! Cutting a sequence at each occurrence of a separator.

use vstd::prelude::*;

verus! {

/// What stands between the separators of `s`: a sequence with `n`
/// separators has `n + 1` pieces, empty ones among them.
pub open spec fn pieces<E>(s: Seq<E>, separator: E) -> Seq<Seq<E>>
    decreases s.len(),
{
    if s.len() == 0 {
        seq![Seq::<E>::empty()]
    } else if s.last() == separator {
        pieces(s.drop_last(), separator).push(Seq::<E>::empty())
    } else {
        let front = pieces(s.drop_last(), separator);
        front.drop_last().push(front.last().push(s.last()))
    }
}

/// `parts`, each followed by a separator but the last.
pub open spec fn joined<E>(parts: Seq<Seq<E>>, separator: E) -> Seq<E>
    decreases parts.len(),
{
    if parts.len() == 0 {
        Seq::<E>::empty()
    } else if parts.len() == 1 {
        parts[0]
    } else {
        joined(parts.drop_last(), separator).push(separator) + parts.last()
    }
}

/// The pieces of a sequence hold no separator, and joined by separators they
/// are the sequence again.
pub proof fn lemma_pieces<E>(s: Seq<E>, separator: E)
    ensures
        pieces(s, separator).len() >= 1,
        forall|i: int, j: int|
            0 <= i < pieces(s, separator).len() && 0 <= j < pieces(s, separator)[i].len()
                ==> pieces(s, separator)[i][j] != separator,
        joined(pieces(s, separator), separator) == s,
    decreases s.len(),
{
    if s.len() == 0 {
        assert(joined(pieces(s, separator), separator) =~= s);
    } else {
        let shorter = s.drop_last();
        lemma_pieces(shorter, separator);
        let front = pieces(shorter, separator);
        if s.last() == separator {
            let all = front.push(Seq::<E>::empty());
            assert(all.drop_last() =~= front);
            assert(joined(all, separator) =~= s);
        } else {
            let grown = front.last().push(s.last());
            let all = front.drop_last().push(grown);
            assert(all.drop_last() =~= front.drop_last());
            if front.len() == 1 {
                assert(joined(all, separator) =~= s);
            } else {
                assert(joined(all, separator) =~= joined(front, separator).push(s.last()));
                assert(joined(all, separator) =~= s);
            }
        }
    }
}

/// Cuts a byte string at each `separator`: the pieces, of which there is at
/// least one, give the byte string back when they are joined.
pub fn split_bytes(s: &[u8], separator: u8) -> (r: Vec<Vec<u8>>)
    ensures
        r.deep_view() == pieces(s@, separator),
        r.len() >= 1,
        joined(r.deep_view(), separator) == s@,
{
    proof {
        lemma_pieces(s@, separator);
    }
    let mut done: Vec<Vec<u8>> = Vec::new();
    let mut current: Vec<u8> = Vec::new();
    let mut i: usize = 0;
    proof {
        assert(s@.take(0) =~= Seq::<u8>::empty());
        assert(done.deep_view().push(current@) =~= pieces(s@.take(0), separator));
    }
    while i < s.len()
        invariant
            i <= s.len(),
            done.deep_view().push(current@) == pieces(s@.take(i as int), separator),
        decreases s.len() - i,
    {
        let ghost before = done.deep_view().push(current@);
        proof {
            assert(s@.take(i + 1).drop_last() =~= s@.take(i as int));
            assert(before.drop_last() =~= done.deep_view());
        }
        if s[i] == separator {
            let ghost held = done.deep_view();
            done.push(current);
            current = Vec::new();
            proof {
                assert(done.deep_view() =~~= held.push(before.last()));
                assert(done.deep_view() =~= before);
            }
        } else {
            current.push(s[i]);
        }
        i += 1;
    }
    proof {
        assert(s@.take(s.len() as int) =~= s@);
    }
    let ghost held = done.deep_view();
    done.push(current);
    proof {
        assert(done.deep_view() =~~= held.push(current@));
    }
    done
}

/// The texts of a list of lists of characters.
pub open spec fn rows(lists: Seq<Vec<char>>) -> Seq<Seq<char>> {
    lists.map_values(|list: Vec<char>| list@)
}

/// Cuts a text at each `separator`: the pieces, of which there is at least
/// one, give the text back when they are joined.
pub fn split_chars(s: &Vec<char>, separator: char) -> (r: Vec<Vec<char>>)
    ensures
        rows(r@) == pieces(s@, separator),
        r.len() >= 1,
        joined(rows(r@), separator) == s@,
{
    proof {
        lemma_pieces(s@, separator);
    }
    let mut done: Vec<Vec<char>> = Vec::new();
    let mut current: Vec<char> = Vec::new();
    let mut i: usize = 0;
    proof {
        assert(s@.take(0) =~= Seq::<char>::empty());
        assert(rows(done@).push(current@) =~= pieces(s@.take(0), separator));
    }
    while i < s.len()
        invariant
            i <= s.len(),
            rows(done@).push(current@) == pieces(s@.take(i as int), separator),
        decreases s.len() - i,
    {
        let ghost before = rows(done@).push(current@);
        proof {
            assert(s@.take(i + 1).drop_last() =~= s@.take(i as int));
            assert(before.drop_last() =~= rows(done@));
        }
        if s[i] == separator {
            let ghost held = rows(done@);
            done.push(current);
            current = Vec::new();
            proof {
                assert(rows(done@) =~= held.push(before.last()));
                assert(rows(done@) =~= before);
            }
        } else {
            current.push(s[i]);
        }
        i += 1;
    }
    proof {
        assert(s@.take(s.len() as int) =~= s@);
    }
    let ghost held = rows(done@);
    done.push(current);
    proof {
        assert(rows(done@) =~= held.push(current@));
    }
    done
}

} // verus!
