use lingo_backend::text::{decimal_text, join_lines, split_lines, text_eq, text_less};

#[test]
fn split_on_line_feeds() {
    assert_eq!(split_lines("a\nb\nc"), vec!["a", "b", "c"]);
    assert_eq!(split_lines(""), vec![""]);
    assert_eq!(split_lines("a\n"), vec!["a", ""]);
    assert_eq!(split_lines("\n\n"), vec!["", "", ""]);
    assert_eq!(split_lines("héllo wörld"), vec!["héllo wörld"]);
}

#[test]
fn join_with_line_feeds() {
    assert_eq!(join_lines(&vec![]), "");
    assert_eq!(join_lines(&vec!["x".to_string()]), "x");
    assert_eq!(join_lines(&vec!["a".to_string(), "".to_string(), "b".to_string()]), "a\n\nb");
}

#[test]
fn split_then_join_gives_text_back() {
    for text in ["", "one", "one\ntwo", "\nlead", "trail\n", "ü\nß\n\n"] {
        assert_eq!(join_lines(&split_lines(text)), text);
    }
}

#[test]
fn text_order_is_str_order() {
    let words = ["", "a", "ab", "b", "B", "é", "abc", "aa"];
    for x in words {
        for y in words {
            assert_eq!(text_less(x, y), x < y, "{x:?} {y:?}");
            assert_eq!(text_eq(x, y), x == y);
        }
    }
}

#[test]
fn decimal_notation() {
    assert_eq!(decimal_text(0), "0");
    assert_eq!(decimal_text(7), "7");
    assert_eq!(decimal_text(10), "10");
    assert_eq!(decimal_text(4294967295), "4294967295");
}
