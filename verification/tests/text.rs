use sebastian_core::text::{decimal_i32_exec, replace_exec, text_contains, trim_exec};

#[test]
fn trimming_drops_unicode_whitespace() {
    assert_eq!(trim_exec("  a b \n"), "a b");
    assert_eq!(trim_exec("\u{2003}x\u{00A0}"), "x");
    assert_eq!(trim_exec("   "), "");
    for s in ["", " x ", "\t\r\n y", "z\u{3000}"] {
        assert_eq!(trim_exec(s), s.trim());
    }
}

#[test]
fn replacing_goes_left_to_right() {
    assert_eq!(replace_exec("a&amp;b&amp;amp;c", "amp;", ""), "a&b&c");
    assert_eq!(replace_exec("aaa", "aa", "b"), "ba");
    for (s, f, t) in [("amp;amp;", "amp;", "x"), ("", "a", "b"), ("abc", "abcd", "")] {
        assert_eq!(replace_exec(s, f, t), s.replace(f, t));
    }
}

#[test]
fn containment_and_decimals() {
    assert!(text_contains("ThreadList.aspx", "ThreadList"));
    assert!(!text_contains("Thread", "ThreadList"));
    assert!(text_contains("x", ""));
    for x in [0i32, 7, -7, 10, 1234567, i32::MAX, i32::MIN] {
        assert_eq!(decimal_i32_exec(x), x.to_string());
    }
}
