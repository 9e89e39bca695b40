use tome::text::{chain, ends_with, join, same_text, without_last};

#[test]
fn texts_are_compared_and_joined() {
    assert!(same_text("abc", "abc"));
    assert!(!same_text("abc", "abd"));
    assert!(!same_text("abc", "ab"));
    assert!(same_text("", ""));
    assert_eq!(chain("ab", "cd"), "abcd");
    assert_eq!(chain("", ""), "");
    let parts = vec!["a".to_string(), "".to_string(), "c".to_string()];
    assert_eq!(join(&parts, ", "), "a, , c");
    assert_eq!(join(&parts, ""), "ac");
    assert_eq!(join(&vec![], "-"), "");
    assert_eq!(join(&vec!["only".to_string()], "-"), "only");
}

#[test]
fn suffixes_are_counted_in_characters() {
    assert!(ends_with("file.md", ".md"));
    assert!(!ends_with("file.md", ".MD"));
    assert!(!ends_with("md", ".md"));
    assert!(ends_with("x", ""));
    assert!(ends_with("日本語.md", "語.md"));
    assert_eq!(without_last("日本語.md", 3), "日本語");
    assert_eq!(without_last("abc", 0), "abc");
    assert_eq!(without_last("abc", 3), "");
}
