use static_atom::matcher::{expect, expect_literal, Expect};

#[test]
fn expect_single_byte() {
    let s: &[u8] = b"abc";
    assert_eq!(expect(s, 0, b'a'), Some(1));
    assert_eq!(expect(s, 1, b'b'), Some(2));
    assert_eq!(expect(s, 0, b'b'), None);
    assert_eq!(expect(s, 3, b'a'), None);
}

#[test]
fn expect_literal_all_widths() {
    let s: &[u8] = b"ABCDEFGHIJKLMNOP";
    for k in 0..=12usize {
        assert_eq!(expect_literal(s, 0, &s[..k]), Some(k), "width {k}");
    }
    // a mismatch anywhere in the window fails, whatever the width
    for k in 1..=12usize {
        let mut lit = s[..k].to_vec();
        lit[k - 1] ^= 0x01;
        assert_eq!(expect_literal(s, 0, &lit), None, "width {k}");
    }
    // matching away from the start advances past the window
    assert_eq!(expect_literal(s, 4, b"EFG"), Some(7));
    assert_eq!(expect_literal(s, 4, b"EGG"), None);
}

#[test]
fn expect_windows_by_array_width() {
    let s: &[u8] = b"BTC-USDC";
    let r = s.expect(b"BT");
    assert_eq!(r, Some(&s[2..]));
    let r = r.unwrap().expect(b"C-US");
    assert_eq!(r, Some(&s[6..]));
    let r = r.unwrap().expect(b"DC");
    assert_eq!(r, Some(&s[8..]));
    assert_eq!(r.unwrap().len(), 0);

    // whole-window comparisons of the composed widths
    assert_eq!(s.expect(b"BTC"), Some(&s[3..]));
    assert_eq!(s.expect(b"BTC-U"), Some(&s[5..]));
    assert_eq!(s.expect(b"BTC-US"), Some(&s[6..]));
    assert_eq!(s.expect(b"BTC-USD"), Some(&s[7..]));
    assert_eq!(s.expect(b"BTC-USDC"), Some(&s[8..]));
    assert_eq!(s.expect(b"BTC-USDX"), None);
    assert_eq!(s.expect(b"X"), None);
}

#[test]
fn expect_window_shorter_than_literal() {
    let s: &[u8] = b"AB";
    assert_eq!(s.expect(b"ABC"), None);
    assert_eq!(s.expect(b"AB"), Some(&s[2..]));
}
