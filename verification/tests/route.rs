use tools_server::entry::{select_entry, stem_len, DirEntry, EntryKind, Selection};
use tools_server::error::Error;
use tools_server::resolver::{find_mock, Resolver, Walk};
use tools_server::tree::DirTree;

fn file(name: &str) -> DirEntry {
    DirEntry { name: name.as_bytes().to_vec(), kind: EntryKind::File }
}

fn dir(name: &str) -> DirEntry {
    DirEntry { name: name.as_bytes().to_vec(), kind: EntryKind::Directory }
}

fn other(name: &str) -> DirEntry {
    DirEntry { name: name.as_bytes().to_vec(), kind: EntryKind::Other }
}

fn fixture() -> DirTree {
    let mut tree = DirTree::new("No such file or directory (os error 2)");
    tree.add(b"./mock".to_vec(), vec![dir("test")]);
    tree.add(
        b"./mock/test".to_vec(),
        vec![file("_.lua"), dir("_param"), dir("echo"), file("echo.lua")],
    );
    tree.add(b"./mock/test/echo".to_vec(), vec![file("hello.lua")]);
    tree.add(b"./mock/test/_param".to_vec(), vec![file("_p2.lua")]);
    tree
}

fn segments(path: &[&str]) -> Vec<Vec<u8>> {
    path.iter().map(|s| s.as_bytes().to_vec()).collect()
}

fn sorted(params: &tools_server::table::ByteMap) -> Vec<(String, String)> {
    let mut pairs: Vec<(String, String)> = params
        .pairs()
        .iter()
        .map(|(k, v)| {
            (String::from_utf8(k.clone()).unwrap(), String::from_utf8(v.clone()).unwrap())
        })
        .collect();
    pairs.sort();
    pairs
}

#[test]
fn route() {
    let tree = fixture();
    let ret = find_mock(&tree, b"./mock".to_vec(), segments(&["test", "echo"]));
    assert!(matches!(ret, Ok(_)));
    assert_eq!(ret.unwrap().0, b"./mock/test/echo.lua".to_vec());

    let ret = find_mock(&tree, b"./mock".to_vec(), segments(&["test", "echo", "hello"]));
    assert!(matches!(ret, Ok(_)));
    assert_eq!(ret.unwrap().0, b"./mock/test/echo/hello.lua".to_vec());

    let ret = find_mock(&tree, b"./mock".to_vec(), segments(&["test", "nothing"]));
    assert!(matches!(ret, Ok(_)));
    assert_eq!(ret.unwrap().0, b"./mock/test/_.lua".to_vec());

    let ret = find_mock(&tree, b"./mock".to_vec(), segments(&["test", "nothing", "wildcard"]));
    assert!(matches!(ret, Ok(_)));
    assert_eq!(ret.unwrap().0, b"./mock/test/_param/_p2.lua".to_vec());

    let ret = find_mock(&tree, b"./mock".to_vec(), segments(&["test", "echo", "nomatch"]));
    assert!(matches!(ret, Err(_)));
}

#[test]
fn exact_file_resolves_with_no_parameters() {
    let tree = fixture();
    let (script, params) =
        find_mock(&tree, b"./mock".to_vec(), segments(&["test", "echo"])).unwrap();
    assert_eq!(script, b"./mock/test/echo.lua".to_vec());
    assert!(params.pairs().is_empty());
}

#[test]
fn exact_directories_lead_to_the_file() {
    let tree = fixture();
    let (script, params) =
        find_mock(&tree, b"./mock".to_vec(), segments(&["test", "echo", "hello"])).unwrap();
    assert_eq!(script, b"./mock/test/echo/hello.lua".to_vec());
    assert!(params.pairs().is_empty());
}

#[test]
fn bare_sentinel_matches_and_binds_nothing() {
    let tree = fixture();
    let (script, params) =
        find_mock(&tree, b"./mock".to_vec(), segments(&["test", "nothing"])).unwrap();
    assert_eq!(script, b"./mock/test/_.lua".to_vec());
    assert!(params.pairs().is_empty());
}

#[test]
fn named_wildcards_bind_their_segments() {
    let tree = fixture();
    let (script, params) =
        find_mock(&tree, b"./mock".to_vec(), segments(&["test", "nothing", "wildcard"])).unwrap();
    assert_eq!(script, b"./mock/test/_param/_p2.lua".to_vec());
    assert_eq!(
        sorted(&params),
        vec![
            ("p2".to_string(), "wildcard".to_string()),
            ("param".to_string(), "nothing".to_string())
        ]
    );
    assert_eq!(params.get(&b"param".to_vec()), Some(&b"nothing".to_vec()));
    assert_eq!(params.get(&b"p2".to_vec()), Some(&b"wildcard".to_vec()));
    assert_eq!(params.get(&b"other".to_vec()), None);
}

#[test]
fn no_match_is_not_found_and_names_the_path() {
    let mut tree = DirTree::new("gone");
    tree.add(b"./mock".to_vec(), vec![dir("test")]);
    tree.add(b"./mock/test".to_vec(), vec![file("echo.lua")]);
    let ret = find_mock(&tree, b"./mock".to_vec(), segments(&["test", "echo", "nomatch"]));
    match ret {
        Err(Error::NotFound(path)) => assert_eq!(path, b"./mock/test/echo".to_vec()),
        _ => panic!("expected NotFound"),
    }
    let ret = find_mock(&tree, b"./mock".to_vec(), segments(&["test", "nomatch"]));
    match ret {
        Err(Error::NotFound(path)) => assert_eq!(path, b"./mock/test/nomatch".to_vec()),
        _ => panic!("expected NotFound"),
    }
}

#[test]
fn not_found_whatever_lies_deeper() {
    let mut tree = DirTree::new("gone");
    tree.add(b"r".to_vec(), vec![dir("a")]);
    tree.add(b"r/a".to_vec(), vec![file("x.lua")]);
    tree.add(b"r/b".to_vec(), vec![file("x.lua")]);
    let ret = find_mock(&tree, b"r".to_vec(), segments(&["b", "x"]));
    match ret {
        Err(Error::NotFound(path)) => assert_eq!(path, b"r/b".to_vec()),
        _ => panic!("expected NotFound"),
    }
}

#[test]
fn not_found_message_names_the_path() {
    let tree = fixture();
    let ret = find_mock(&tree, b"./mock".to_vec(), segments(&["test", "echo", "nomatch"]));
    match ret {
        Err(e) => assert_eq!(e.message(), "mock path:./mock/test/echo/nomatch not found"),
        Ok(_) => panic!("expected an error"),
    }
}

#[test]
fn not_found_message_replaces_ill_formed_bytes() {
    let e = Error::NotFound(vec![b'a', 0xff, b'b']);
    assert_eq!(e.message(), "mock path:a\u{fffd}b not found");
}

#[test]
fn unlisted_directory_is_an_io_error() {
    let tree = DirTree::new("No such file or directory (os error 2)");
    let ret = find_mock(&tree, b"./mock".to_vec(), segments(&["test", "echo"]));
    match ret {
        Err(Error::Io(description)) => {
            assert_eq!(description, "No such file or directory (os error 2)")
        }
        _ => panic!("expected Io"),
    }
    let mut tree = DirTree::new("denied");
    tree.add(b"./mock".to_vec(), vec![dir("test")]);
    let ret = find_mock(&tree, b"./mock".to_vec(), segments(&["test", "echo"]));
    match ret {
        Err(e @ Error::Io(_)) => assert_eq!(e.message(), "denied"),
        _ => panic!("expected Io"),
    }
}

#[test]
fn exact_match_beats_wildcard_in_any_order() {
    let wild_first = vec![file("_x.lua"), file("echo.lua"), file("_y.lua")];
    assert_eq!(select_entry(&wild_first, b"echo", true), Selection::Exact(1));
    let exact_first = vec![file("echo.lua"), file("_x.lua")];
    assert_eq!(select_entry(&exact_first, b"echo", true), Selection::Exact(0));

    let mut tree = DirTree::new("gone");
    tree.add(b"m".to_vec(), wild_first);
    let (script, params) = find_mock(&tree, b"m".to_vec(), segments(&["echo"])).unwrap();
    assert_eq!(script, b"m/echo.lua".to_vec());
    assert!(params.pairs().is_empty());
}

#[test]
fn first_exact_and_last_wildcard_are_selected() {
    let two_exact = vec![file("echo.txt"), file("echo.lua")];
    assert_eq!(select_entry(&two_exact, b"echo", true), Selection::Exact(0));
    let two_wild = vec![file("_a.lua"), file("x.lua"), file("_b.lua"), file("y.lua")];
    assert_eq!(select_entry(&two_wild, b"echo", true), Selection::Wildcard(2));
    assert_eq!(select_entry(&two_wild, b"x", true), Selection::Exact(1));
    assert_eq!(select_entry(&Vec::new(), b"x", true), Selection::Nothing);
    assert_eq!(select_entry(&vec![file("a.lua")], b"x", true), Selection::Nothing);
}

#[test]
fn a_segment_that_is_a_wildcard_name_matches_exactly() {
    let entries = vec![file("_b.lua"), file("_a.lua"), file("_c.lua")];
    assert_eq!(select_entry(&entries, b"_a", true), Selection::Exact(1));
    let mut tree = DirTree::new("gone");
    tree.add(b"m".to_vec(), entries);
    let (script, params) = find_mock(&tree, b"m".to_vec(), segments(&["_a"])).unwrap();
    assert_eq!(script, b"m/_a.lua".to_vec());
    assert!(params.pairs().is_empty());
}

#[test]
fn only_entries_of_the_right_kind_match() {
    let entries = vec![dir("echo"), other("echo.lua"), dir("_d"), file("_f.lua")];
    assert_eq!(select_entry(&entries, b"echo", true), Selection::Wildcard(3));
    assert_eq!(select_entry(&entries, b"echo", false), Selection::Exact(0));
    assert_eq!(select_entry(&entries, b"none", false), Selection::Wildcard(2));
    let files_only = vec![file("echo"), file("_")];
    assert_eq!(select_entry(&files_only, b"echo", false), Selection::Nothing);
    let others = vec![other("echo"), other("_")];
    assert_eq!(select_entry(&others, b"echo", true), Selection::Nothing);
    assert_eq!(select_entry(&others, b"echo", false), Selection::Nothing);
}

#[test]
fn directories_are_compared_by_their_full_name() {
    let entries = vec![dir("v1.0"), dir("_.d")];
    assert_eq!(select_entry(&entries, b"v1", false), Selection::Wildcard(1));
    assert_eq!(select_entry(&entries, b"v1.0", false), Selection::Exact(0));
    let mut tree = DirTree::new("gone");
    tree.add(b"m".to_vec(), entries);
    tree.add(b"m/_.d".to_vec(), vec![file("x.lua")]);
    let (script, params) = find_mock(&tree, b"m".to_vec(), segments(&["v1", "x"])).unwrap();
    assert_eq!(script, b"m/_.d/x.lua".to_vec());
    assert_eq!(sorted(&params), vec![(".d".to_string(), "v1".to_string())]);
}

#[test]
fn the_extension_is_stripped_for_comparison_only() {
    let mut tree = DirTree::new("gone");
    tree.add(b"m".to_vec(), vec![file("a.tar.gz"), file("_id.v2.lua")]);
    let (script, _) = find_mock(&tree, b"m".to_vec(), segments(&["a.tar"])).unwrap();
    assert_eq!(script, b"m/a.tar.gz".to_vec());
    let (script, params) = find_mock(&tree, b"m".to_vec(), segments(&["a"])).unwrap();
    assert_eq!(script, b"m/_id.v2.lua".to_vec());
    assert_eq!(sorted(&params), vec![("id.v2".to_string(), "a".to_string())]);
}

#[test]
fn stems() {
    assert_eq!(stem_len(b"echo.lua"), 4);
    assert_eq!(stem_len(b"echo"), 4);
    assert_eq!(stem_len(b".lua"), 4);
    assert_eq!(stem_len(b"a.b.c"), 3);
    assert_eq!(stem_len(b"a."), 1);
    assert_eq!(stem_len(b".."), 2);
    assert_eq!(stem_len(b"."), 1);
    assert_eq!(stem_len(b"..."), 2);
    assert_eq!(stem_len(b"..a"), 1);
    assert_eq!(stem_len(b""), 0);
    assert_eq!(stem_len(b"_.lua"), 1);
}

#[test]
fn an_entry_with_an_empty_name_matches_only_the_empty_segment() {
    let entries = vec![file("")];
    assert_eq!(select_entry(&entries, b"x", true), Selection::Nothing);
    assert_eq!(select_entry(&entries, b"", true), Selection::Exact(0));
}

#[test]
fn a_parameter_bound_twice_keeps_the_later_segment() {
    let mut tree = DirTree::new("gone");
    tree.add(b"m".to_vec(), vec![dir("_p")]);
    tree.add(b"m/_p".to_vec(), vec![file("_p.lua")]);
    let (script, params) = find_mock(&tree, b"m".to_vec(), segments(&["a", "b"])).unwrap();
    assert_eq!(script, b"m/_p/_p.lua".to_vec());
    assert_eq!(sorted(&params), vec![("p".to_string(), "b".to_string())]);
}

#[test]
fn segments_are_bound_as_they_are_given() {
    let mut tree = DirTree::new("gone");
    tree.add(b"m".to_vec(), vec![file("_raw.lua")]);
    let (_, params) = find_mock(&tree, b"m".to_vec(), vec![b"A%20b.c".to_vec()]).unwrap();
    assert_eq!(params.get(&b"raw".to_vec()), Some(&b"A%20b.c".to_vec()));
}

#[test]
fn a_resolution_advances_one_directory_at_a_time() {
    let walker = Resolver::new(b"./mock".to_vec(), segments(&["test", "nothing", "wildcard"]));
    assert_eq!(walker.directory(), &b"./mock".to_vec());
    let walker = match walker.advance(&vec![dir("test")]) {
        Walk::Pending(next) => next,
        _ => panic!("expected to descend"),
    };
    assert_eq!(walker.directory(), &b"./mock/test".to_vec());
    let walker = match walker.advance(&vec![file("_.lua"), dir("_param"), dir("echo")]) {
        Walk::Pending(next) => next,
        _ => panic!("expected to descend"),
    };
    assert_eq!(walker.directory(), &b"./mock/test/_param".to_vec());
    match walker.advance(&vec![file("_p2.lua")]) {
        Walk::Found { script, params } => {
            assert_eq!(script, b"./mock/test/_param/_p2.lua".to_vec());
            assert_eq!(params.get(&b"param".to_vec()), Some(&b"nothing".to_vec()));
            assert_eq!(params.get(&b"p2".to_vec()), Some(&b"wildcard".to_vec()));
            assert_eq!(params.pairs().len(), 2);
        }
        _ => panic!("expected to find the script"),
    }
}

#[test]
fn a_resolution_stops_where_nothing_matches() {
    let walker = Resolver::new(b"./mock".to_vec(), segments(&["test", "echo"]));
    match walker.advance(&vec![file("test.lua"), dir("other")]) {
        Walk::NotFound { path } => assert_eq!(path, b"./mock/test".to_vec()),
        _ => panic!("expected NotFound"),
    }
}

#[test]
fn a_listing_may_end_with_the_exact_match() {
    let full = vec![file("_w.lua"), file("echo.lua"), file("_z.lua"), file("echo.txt")];
    let cut = vec![file("_w.lua"), file("echo.lua")];
    let walker = Resolver::new(b"m".to_vec(), segments(&["echo"]));
    assert!(!walker.settles(&full[0]));
    assert!(walker.settles(&full[1]));
    assert!(!walker.settles(&full[2]));
    assert!(walker.settles(&full[3]));
    assert!(!walker.settles(&dir("echo")));
    let on_full = match walker.advance(&full) {
        Walk::Found { script, params } => (script, params.pairs().len()),
        _ => panic!("expected to find the script"),
    };
    let walker = Resolver::new(b"m".to_vec(), segments(&["echo"]));
    let on_cut = match walker.advance(&cut) {
        Walk::Found { script, params } => (script, params.pairs().len()),
        _ => panic!("expected to find the script"),
    };
    assert_eq!(on_full, (b"m/echo.lua".to_vec(), 0));
    assert_eq!(on_cut, on_full);
}

#[test]
fn a_tree_lists_what_was_added_last() {
    let mut tree = DirTree::new("gone");
    assert!(tree.list(&b"m".to_vec()).is_none());
    tree.add(b"m".to_vec(), vec![file("a")]);
    tree.add(b"n".to_vec(), Vec::new());
    tree.add(b"m".to_vec(), vec![file("b"), dir("c")]);
    assert_eq!(tree.list(&b"m".to_vec()).unwrap().len(), 2);
    assert_eq!(tree.list(&b"m".to_vec()).unwrap()[0].name, b"b".to_vec());
    assert!(tree.list(&b"n".to_vec()).unwrap().is_empty());
    assert!(tree.list(&b"m/".to_vec()).is_none());
    assert_eq!(tree.failure_text(), "gone");
}
