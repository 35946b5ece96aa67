use sci::text::{find_nul, read_c_string};
use sci::pmachine::kernel::{compare, text_string};

#[test]
fn c_string_reads_up_to_nul() {
    let data = b"ab\0cd\0";
    assert_eq!(find_nul(data, 0, data.len()), Some(2));
    let (s, n) = read_c_string(data, 3, data.len()).unwrap();
    assert_eq!(s, "cd");
    assert_eq!(n, 2);
}

#[test]
fn c_string_without_nul_is_refused() {
    let data = b"abc";
    assert!(read_c_string(data, 0, data.len()).is_none());
}

#[test]
fn c_string_that_is_not_utf8_is_refused() {
    let data = [0xffu8, 0xfe, 0];
    assert!(read_c_string(&data, 0, data.len()).is_none());
}

#[test]
fn text_resource_strings_by_number() {
    let data = b"hello\0world\0";
    assert_eq!(text_string(data, 0), Some("hello".to_string()));
    assert_eq!(text_string(data, 1), Some("world".to_string()));
    assert_eq!(text_string(data, 2), Some(String::new()));
    assert_eq!(text_string(data, 3), None);
}

#[test]
fn string_comparison_orders_bytes() {
    assert_eq!(compare(b"abc", b"abd"), -1);
    assert_eq!(compare(b"abc", b"abc"), 0);
    assert_eq!(compare(b"b", b"abc"), 1);
    assert_eq!(compare(b"ab", b"abc"), -1);
    assert_eq!(compare(b"", b""), 0);
}

#[test]
fn comparison_swaps_sign_when_swapped() {
    let pairs: [(&[u8], &[u8]); 4] = [(b"abc", b"abd"), (b"b", b"abc"), (b"ab", b"abc"), (b"x", b"x")];
    for (a, b) in pairs {
        assert_eq!(compare(b, a), -compare(a, b));
        assert_eq!(compare(a, b) == 0, a == b);
    }
}
