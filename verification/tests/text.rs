use qwen_studio::navigation::{about_script, allow_navigation, hides_on_close};
use qwen_studio::text::{
    chars_of, contains, is_whitespace, replace, same_text, split, starts_with, trim,
};

#[test]
fn text_primitives_agree_with_std() {
    let texts = ["", "a", "aa", "abc", "aab", "\u{a0} x\t", " \n", "é.b..c", ".", "..", "xé"];
    for s in texts {
        assert_eq!(trim(s), s.trim());
        assert_eq!(chars_of(s), s.chars().collect::<Vec<char>>());
        assert_eq!(split(s, '.'), s.split('.').collect::<Vec<&str>>());
        assert_eq!(replace(s, 'a', "aa"), s.replace('a', "aa"));
        for t in texts {
            assert_eq!(starts_with(s, t), s.starts_with(t), "{:?} {:?}", s, t);
            assert_eq!(contains(s, t), s.contains(t), "{:?} {:?}", s, t);
            assert_eq!(same_text(s, t), s == t);
        }
    }
}

#[test]
fn pieces_join_back() {
    for s in ["", ";", "a;b", ";a;;b;"] {
        assert_eq!(split(s, ';').join(";"), s);
    }
}

#[test]
fn navigation_is_allowed_for_web_and_sign_in() {
    assert!(allow_navigation("https://chat.qwen.ai/c/1"));
    assert!(allow_navigation("https://example.com/"));
    assert!(allow_navigation("http://example.com/"));
    assert!(allow_navigation("weixin://login.alibaba.com"));
    assert!(allow_navigation("custom:x/callback?code=1"));
    assert!(allow_navigation("custom:/oauth"));
    assert!(!allow_navigation("file:///etc/passwd"));
    assert!(!allow_navigation("javascript:alert(1)"));
    assert!(!allow_navigation(""));
    assert!(!allow_navigation("ftp://example.com/"));
}

#[test]
fn only_the_main_window_hides() {
    assert!(hides_on_close("main"));
    assert!(!hides_on_close("window-1"));
    assert!(!hides_on_close("main2"));
    assert_eq!(about_script("2.2.3"), "alert(\"Qwen Studio v2.2.3\");");
}

#[test]
fn whitespace_is_that_of_unicode() {
    for c in '\u{0}'..=char::MAX {
        assert_eq!(is_whitespace(c), c.is_whitespace(), "{:?}", c);
    }
}
