use tools_server::octets::{append, copy, copy_range, join_path, prefix_is, same};
use tools_server::pieces::{split_bytes, split_chars};

#[test]
fn byte_strings_are_compared_byte_by_byte() {
    assert!(same(b"abc", b"abc"));
    assert!(same(b"", b""));
    assert!(!same(b"abc", b"abd"));
    assert!(!same(b"abc", b"ab"));
    assert!(!same(b"", b"a"));
    assert!(prefix_is(b"echo.lua", 4, b"echo"));
    assert!(prefix_is(b"echo.lua", 0, b""));
    assert!(!prefix_is(b"echo.lua", 4, b"ech"));
    assert!(!prefix_is(b"echo.lua", 4, b"echo."));
    assert!(!prefix_is(b"echo.lua", 4, b"ecHo"));
}

#[test]
fn byte_strings_are_copied_and_joined() {
    let mut bytes = b"ab".to_vec();
    append(&mut bytes, b"cd");
    append(&mut bytes, b"");
    assert_eq!(bytes, b"abcd".to_vec());
    assert_eq!(copy(b"xyz"), b"xyz".to_vec());
    assert_eq!(copy_range(b"_param", 1, 6), b"param".to_vec());
    assert_eq!(copy_range(b"_param", 2, 2), Vec::<u8>::new());
    assert_eq!(join_path(b"./mock".to_vec(), b"test"), b"./mock/test".to_vec());
    assert_eq!(join_path(Vec::new(), b""), b"/".to_vec());
}

#[test]
fn sequences_are_cut_at_each_separator() {
    assert_eq!(split_bytes(b"a,b,,c", b','), vec![b"a".to_vec(), b"b".to_vec(), Vec::new(), b"c".to_vec()]);
    assert_eq!(split_bytes(b"", b','), vec![Vec::<u8>::new()]);
    assert_eq!(
        split_chars(&vec!['a', ',', '\u{e9}', ','], ','),
        vec![vec!['a'], vec!['\u{e9}'], Vec::new()]
    );
    assert_eq!(split_chars(&vec!['x'], ','), vec![vec!['x']]);
}
