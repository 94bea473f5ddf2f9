//! What a script is given of a request: its path, query, headers, body and
//! the parameters that its path has bound.

use vstd::prelude::*;
use crate::octets::{append, copy, SEPARATOR};
use crate::pieces::{pieces, split_bytes};
use crate::table::{content, pairs_map, ByteMap, Table};

verus! {

/// Byte that joins the values of a header that occurs more than once.
pub const COMMA: u8 = 44u8;

/// How many leading segments of a request path name the route and not the
/// script: the empty segment before the first separator, and `mock`.
pub const ROUTE_SEGMENTS: usize = 2;

/// The segments of `path`: what stands between its separators, so that a
/// path with `n` separators has `n + 1` segments, empty ones among them.
pub open spec fn split(path: Seq<u8>) -> Seq<Seq<u8>> {
    pieces(path, SEPARATOR)
}

/// Cuts `path` at its separators.
pub fn split_path(path: &[u8]) -> (r: Vec<Vec<u8>>)
    ensures
        r.deep_view() == split(path@),
{
    split_bytes(path, SEPARATOR)
}

/// The segments of a request path that address the script: all but the
/// leading `ROUTE_SEGMENTS`.
pub fn route_segments(path: &[u8]) -> (r: Vec<Vec<u8>>)
    requires
        split(path@).len() >= ROUTE_SEGMENTS,
    ensures
        r.deep_view() == split(path@).skip(ROUTE_SEGMENTS as int),
{
    let mut all = split_path(path);
    let r = all.split_off(ROUTE_SEGMENTS);
    proof {
        assert(r.deep_view() =~= split(path@).skip(ROUTE_SEGMENTS as int));
    }
    r
}

/// A list of pairs of byte strings, each by its bytes.
pub open spec fn pair_views(pairs: Seq<(Vec<u8>, Vec<u8>)>) -> Seq<(Seq<u8>, Seq<u8>)> {
    pairs.map_values(|pair: (Vec<u8>, Vec<u8>)| (pair.0@, pair.1@))
}

/// The values that stand under `name` in a list of headers, in the order in
/// which they occur.
pub open spec fn values_of(headers: Seq<(Seq<u8>, Seq<u8>)>, name: Seq<u8>) -> Seq<Seq<u8>>
    decreases headers.len(),
{
    if headers.len() == 0 {
        Seq::<Seq<u8>>::empty()
    } else if headers.last().0 == name {
        values_of(headers.drop_last(), name).push(headers.last().1)
    } else {
        values_of(headers.drop_last(), name)
    }
}

/// `values`, each followed by a comma but the last.
pub open spec fn comma_joined(values: Seq<Seq<u8>>) -> Seq<u8>
    decreases values.len(),
{
    if values.len() == 0 {
        Seq::<u8>::empty()
    } else if values.len() == 1 {
        values[0]
    } else {
        comma_joined(values.drop_last()).push(COMMA) + values.last()
    }
}

/// A list of headers as a map: each name that occurs, as it was received,
/// with all its values in the order of their occurrence, joined by commas.
pub open spec fn folded(headers: Seq<(Seq<u8>, Seq<u8>)>) -> Map<Seq<u8>, Seq<u8>> {
    Map::new(
        |name: Seq<u8>| values_of(headers, name).len() > 0,
        |name: Seq<u8>| comma_joined(values_of(headers, name)),
    )
}

/// One more header adds its value to those of its name, behind a comma
/// where it is not the first.
pub proof fn lemma_folded_push(headers: Seq<(Seq<u8>, Seq<u8>)>, header: (Seq<u8>, Seq<u8>))
    ensures
        folded(headers.push(header)) == if folded(headers).dom().contains(header.0) {
            folded(headers).insert(
                header.0,
                folded(headers)[header.0].push(COMMA) + header.1,
            )
        } else {
            folded(headers).insert(header.0, header.1)
        },
{
    let more = headers.push(header);
    assert(more.drop_last() =~= headers);
    let expected = if folded(headers).dom().contains(header.0) {
        folded(headers).insert(header.0, folded(headers)[header.0].push(COMMA) + header.1)
    } else {
        folded(headers).insert(header.0, header.1)
    };
    assert forall|name: Seq<u8>| folded(more).dom().contains(name) <==> expected.dom().contains(
        name,
    ) by {}
    assert forall|name: Seq<u8>| folded(more).dom().contains(name) implies folded(more)[name]
        == expected[name] by {
        if name == header.0 {
            let values = values_of(headers, name);
            assert(values.push(header.1).drop_last() =~= values);
        }
    }
    assert(folded(more) =~= expected);
}

/// Folds the headers of a request into a map: a name that occurs once keeps
/// its value, a name that occurs again has each further value appended
/// behind a comma.
pub fn headers2map(headers: &Vec<(Vec<u8>, Vec<u8>)>) -> (map: ByteMap)
    ensures
        map.wf(),
        content(map@) == folded(pair_views(headers@)),
{
    let mut map: ByteMap = Table::new();
    let ghost all = pair_views(headers@);
    let mut i: usize = 0;
    proof {
        assert(content(map@) =~= folded(all.take(0)));
    }
    while i < headers.len()
        invariant
            i <= headers.len(),
            all == pair_views(headers@),
            map.wf(),
            content(map@) == folded(all.take(i as int)),
        decreases headers.len() - i,
    {
        let name = copy(headers[i].0.as_slice());
        let value = &headers[i].1;
        proof {
            assert(all.take(i + 1) =~= all.take(i as int).push((name@, value@)));
            lemma_folded_push(all.take(i as int), (name@, value@));
        }
        let ghost before = map@;
        let folded_value = match map.get(&name) {
            Some(held) => {
                let mut longer = copy(held.as_slice());
                longer.push(COMMA);
                append(&mut longer, value.as_slice());
                longer
            },
            None => copy(value.as_slice()),
        };
        map.insert(name, folded_value);
        proof {
            assert(content(map@) =~= content(before).insert(name@, folded_value@));
        }
        i += 1;
    }
    proof {
        assert(all.take(headers.len() as int) =~= all);
    }
    map
}

/// What a script can read of the request that it answers.
pub struct RequestBindings {
    /// The full path of the request.
    pub path: String,
    /// The query parameters; of a key given twice, the last value.
    pub query: ByteMap,
    /// The headers, the values of each name folded into one.
    pub header: ByteMap,
    /// The parameters that wildcards on the path have bound.
    pub path_param: ByteMap,
    /// The body, byte for byte.
    pub body: Vec<u8>,
}

impl RequestBindings {
    /// The three maps are maps.
    pub open spec fn wf(&self) -> bool {
        self.query.wf() && self.header.wf() && self.path_param.wf()
    }

    /// These are the bindings of a request with this path, query, headers,
    /// parameters and body: the path and the body as they are, the query with
    /// the last value of each key, the headers folded.
    pub open spec fn marshals(
        &self,
        path: Seq<char>,
        query: Seq<(Vec<u8>, Vec<u8>)>,
        headers: Seq<(Vec<u8>, Vec<u8>)>,
        path_param: Map<Seq<u8>, Seq<u8>>,
        body: Seq<u8>,
    ) -> bool {
        &&& self.wf()
        &&& self.path@ == path
        &&& content(self.query@) == content(pairs_map(query))
        &&& content(self.header@) == folded(pair_views(headers))
        &&& content(self.path_param@) == path_param
        &&& self.body@ == body
    }

    /// Gathers what a script is given: the path and the body as they are,
    /// the query with the last value of each key, the headers folded, and
    /// the parameters of the path.
    pub fn new(
        path: String,
        query: Vec<(Vec<u8>, Vec<u8>)>,
        headers: &Vec<(Vec<u8>, Vec<u8>)>,
        path_param: ByteMap,
        body: Vec<u8>,
    ) -> (r: Self)
        requires
            path_param.wf(),
        ensures
            r.marshals(path@, query@, headers@, content(path_param@), body@),
    {
        RequestBindings {
            path,
            query: Table::from_pairs(query),
            header: headers2map(headers),
            path_param,
            body,
        }
    }
}

} // verus!
