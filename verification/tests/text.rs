use ruplicity::backend::local::LocalBackend;
use ruplicity::bytes::{bytes_order_exec, Order3};
use ruplicity::rawpath::{path_order_exec, RawPath};
use ruplicity::tarext::{deslash, fix_long_name, is_long_name_entry, link_name, long_name_capacity, truncate};
use ruplicity::text::decimal_string;

#[test]
fn path_order_is_by_component() {
    assert_eq!(path_order_exec(b"a/b", b"a-b"), Order3::Less);
    assert_eq!(bytes_order_exec(b"a/b", b"a-b"), Order3::Greater);
    assert_eq!(path_order_exec(b"a//b/", b"a/./b"), Order3::Equal);
    assert_eq!(path_order_exec(b"a", b"a/b"), Order3::Less);
    assert_eq!(path_order_exec(b"../x", b"a"), Order3::Less);
    assert_eq!(path_order_exec(b"b", b"a/z"), Order3::Greater);
}

#[test]
fn path_order_keeps_root_and_leading_dot() {
    // as std::path::Path orders: the root, then `.`, then `..`, then names
    assert_eq!(path_order_exec(b"/a", b"a"), Order3::Less);
    assert_eq!(path_order_exec(b"./a", b"a"), Order3::Less);
    assert_eq!(path_order_exec(b"/a", b"./a"), Order3::Less);
    assert_eq!(path_order_exec(b".", b""), Order3::Greater);
    assert_eq!(path_order_exec(b"./a", b"././a"), Order3::Equal);
    assert_eq!(path_order_exec(b"a/./b", b"a/b"), Order3::Equal);
    assert_eq!(path_order_exec(b"//a", b"/a"), Order3::Equal);
    assert_eq!(path_order_exec(b"./a", b"../a"), Order3::Less);
}

#[test]
fn raw_paths_equal_by_components() {
    let p = |b: &[u8]| RawPath::from_bytes(b.to_vec());
    assert!(p(b"a//b/") == p(b"a/b"));
    assert!(p(b"a/./b") == p(b"a/b"));
    assert!(p(b"/a") != p(b"a"));
    assert!(p(b"./a") != p(b"a"));
    assert!(p(b"a/b") != p(b"a/c"));
}

#[test]
fn raw_path_display() {
    assert_eq!(RawPath::new().display_string(), ".");
    assert_eq!(RawPath::from_bytes(b"dir/file".to_vec()).display_string(), "dir/file");
    assert_eq!(RawPath::from_bytes(vec![0xff, 0xfe]).display_string(), "?");
    assert_eq!(RawPath::from_bytes(vec![0xff]).as_path(), Some(&[0xffu8][..]));
    assert_eq!(RawPath::from_bytes(b"x".to_vec()).as_path(), Some(&b"x"[..]));
    assert_eq!(RawPath::from_bytes(b"x".to_vec()).clone().as_bytes(), b"x");
}

#[test]
fn decimal_text() {
    assert_eq!(decimal_string(0), "0");
    assert_eq!(decimal_string(7), "7");
    assert_eq!(decimal_string(1234567890), "1234567890");
}

#[test]
fn tar_header_fields() {
    assert_eq!(truncate(b"abc\0def"), b"abc");
    assert_eq!(truncate(b"abc"), b"abc");
    assert_eq!(deslash(b"a\\b\\c\0zz"), b"a/b/c".to_vec());
    assert_eq!(link_name(b"\0target"), None);
    assert_eq!(link_name(b"dir\\target\0\0"), Some(b"dir/target".to_vec()));
    assert!(is_long_name_entry(b'L'));
    assert!(!is_long_name_entry(b'0'));
    assert_eq!(long_name_capacity(Some(10)), 10);
    assert_eq!(long_name_capacity(Some(1 << 40)), 131072);
    assert_eq!(long_name_capacity(None), 0);
}

#[test]
fn gnu_long_names() {
    assert_eq!(fix_long_name(b"long/name\0\0\0"), b"long/name".to_vec());
    assert_eq!(fix_long_name(b"long/name"), b"long/name".to_vec());
    // cut at the last zero, then trailing zeros dropped
    assert_eq!(fix_long_name(b"a\0\0b\0"), b"a\0\0b".to_vec());
    assert_eq!(fix_long_name(b"ab\0c\0\0"), b"ab\0c".to_vec());
}

#[test]
fn local_backend_path() {
    let b = LocalBackend::new("tests/backups/single_vol");
    assert_eq!(b.path(), "tests/backups/single_vol");
}
