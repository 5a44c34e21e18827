use macro_magic_core::codec::{escape_extra, join_extra, split_extra, unescape_extra};

#[test]
fn escape_examples() {
    assert_eq!(escape_extra("~~"), "\\~\\~");
    assert_eq!(escape_extra("a\\b"), "a\\\\b");
    assert_eq!(escape_extra("~~~"), "\\~\\~~");
    assert_eq!(escape_extra("plain"), "plain");
    assert_eq!(unescape_extra("\\~\\~"), "~~");
    assert_eq!(unescape_extra("\\\\"), "\\");
}

#[test]
fn escape_round_trip() {
    for s in ["", "~", "~~", "~~~", "\\", "\\~\\~", "\\\\~~\\", "a~~b~~c", "~\\~", "x\\"] {
        assert_eq!(unescape_extra(&escape_extra(s)), s, "round trip of {:?}", s);
    }
}

#[test]
fn record_round_trip() {
    let cases = [
        ("struct S;", "a::b", ""),
        ("x ~~ y", "p~~q", "~~"),
        ("\\~\\~x", "\\", "~~~"),
        ("", "", ""),
    ];
    for (a, b, c) in cases {
        let r = join_extra(a, b, c);
        assert_eq!(split_extra(&r), Some((a.to_string(), b.to_string(), c.to_string())));
    }
}

#[test]
fn record_exact_and_malformed() {
    assert_eq!(join_extra("a", "~~", "c"), "a~~\\~\\~~~c");
    assert_eq!(split_extra("a~~b"), None);
    assert_eq!(split_extra("a~~b~~c~~d"), None);
    assert_eq!(split_extra("a~~b\\~\\~~~c"), Some(("a".to_string(), "b~~".to_string(), "c".to_string())));
}
