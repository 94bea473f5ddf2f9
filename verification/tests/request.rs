use tools_server::request::{headers2map, route_segments, split_path, RequestBindings};
use tools_server::table::{ByteMap, Table};

fn pair(name: &str, value: &str) -> (Vec<u8>, Vec<u8>) {
    (name.as_bytes().to_vec(), value.as_bytes().to_vec())
}

#[test]
fn a_header_that_occurs_once_keeps_its_value() {
    let map = headers2map(&vec![pair("accept", "text/html"), pair("host", "localhost")]);
    assert_eq!(map.get(&b"accept".to_vec()), Some(&b"text/html".to_vec()));
    assert_eq!(map.get(&b"host".to_vec()), Some(&b"localhost".to_vec()));
    assert_eq!(map.get(&b"cookie".to_vec()), None);
    assert_eq!(map.pairs().len(), 2);
}

#[test]
fn repeated_headers_are_joined_by_commas_in_order() {
    let map = headers2map(&vec![
        pair("x-tag", "a"),
        pair("host", "h"),
        pair("x-tag", "b"),
        pair("x-tag", "c,d"),
    ]);
    assert_eq!(map.get(&b"x-tag".to_vec()), Some(&b"a,b,c,d".to_vec()));
    assert_eq!(map.get(&b"host".to_vec()), Some(&b"h".to_vec()));
    assert_eq!(map.pairs().len(), 2);
}

#[test]
fn header_names_are_kept_as_received() {
    let map = headers2map(&vec![pair("X-Tag", "a"), pair("x-tag", "b")]);
    assert_eq!(map.get(&b"X-Tag".to_vec()), Some(&b"a".to_vec()));
    assert_eq!(map.get(&b"x-tag".to_vec()), Some(&b"b".to_vec()));
}

#[test]
fn empty_header_values_are_folded_too() {
    let map = headers2map(&vec![pair("x", ""), pair("x", ""), pair("x", "z")]);
    assert_eq!(map.get(&b"x".to_vec()), Some(&b",,z".to_vec()));
    assert!(headers2map(&Vec::new()).pairs().is_empty());
}

#[test]
fn a_path_is_cut_at_its_separators() {
    assert_eq!(
        split_path(b"/mock/test/echo"),
        vec![b"".to_vec(), b"mock".to_vec(), b"test".to_vec(), b"echo".to_vec()]
    );
    assert_eq!(split_path(b""), vec![b"".to_vec()]);
    assert_eq!(split_path(b"a"), vec![b"a".to_vec()]);
    assert_eq!(split_path(b"/"), vec![b"".to_vec(), b"".to_vec()]);
    assert_eq!(split_path(b"a//b/"), vec![b"a".to_vec(), b"".to_vec(), b"b".to_vec(), b"".to_vec()]);
}

#[test]
fn the_route_prefix_is_stripped() {
    assert_eq!(route_segments(b"/mock/test/echo"), vec![b"test".to_vec(), b"echo".to_vec()]);
    assert_eq!(route_segments(b"/mock"), Vec::<Vec<u8>>::new());
    assert_eq!(route_segments(b"/mock/"), vec![b"".to_vec()]);
}

#[test]
fn bindings_hold_the_request() {
    let mut params: ByteMap = Table::new();
    params.insert(b"id".to_vec(), b"7".to_vec());
    let bindings = RequestBindings::new(
        "/mock/user/7".to_string(),
        vec![pair("q", "1"), pair("r", "x"), pair("q", "2")],
        &vec![pair("x-tag", "a"), pair("x-tag", "b")],
        params,
        vec![0, 159, 146, 150, 10],
    );
    assert_eq!(bindings.path, "/mock/user/7");
    assert_eq!(bindings.query.get(&b"q".to_vec()), Some(&b"2".to_vec()));
    assert_eq!(bindings.query.get(&b"r".to_vec()), Some(&b"x".to_vec()));
    assert_eq!(bindings.query.pairs().len(), 2);
    assert_eq!(bindings.header.get(&b"x-tag".to_vec()), Some(&b"a,b".to_vec()));
    assert_eq!(bindings.path_param.get(&b"id".to_vec()), Some(&b"7".to_vec()));
    assert_eq!(bindings.body, vec![0, 159, 146, 150, 10]);
}

#[test]
fn a_table_keeps_the_last_value_and_the_first_place() {
    let mut table: Table<Vec<u8>, u32> = Table::new();
    table.insert(b"a".to_vec(), 1);
    table.insert(b"b".to_vec(), 2);
    table.insert(b"a".to_vec(), 3);
    assert_eq!(table.get(&b"a".to_vec()), Some(&3));
    assert_eq!(table.get(&b"b".to_vec()), Some(&2));
    assert_eq!(table.get(&b"c".to_vec()), None);
    assert_eq!(table.pairs(), &vec![(b"a".to_vec(), 3), (b"b".to_vec(), 2)]);
    let built = Table::from_pairs(vec![("k".to_string(), 1), ("l".to_string(), 2), ("k".to_string(), 9)]);
    assert_eq!(built.pairs(), &vec![("k".to_string(), 9), ("l".to_string(), 2)]);
}
