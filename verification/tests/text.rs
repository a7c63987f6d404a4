use beans_core::text::file_extension;

#[test]
fn file_extensions_follow_the_last_component() {
    assert_eq!(file_extension("src/A.java"), Some("java"));
    assert_eq!(file_extension("A.tar.gz"), Some("gz"));
    assert_eq!(file_extension("a/.b.java"), Some("java"));
    assert_eq!(file_extension("a/b.java/"), Some("java"));
    assert_eq!(file_extension("a/b.java/."), Some("java"));
    assert_eq!(file_extension("foo."), Some(""));
    assert_eq!(file_extension("src/.hidden"), None);
    assert_eq!(file_extension("src/Makefile"), None);
    assert_eq!(file_extension("a.d/Makefile"), None);
    assert_eq!(file_extension("a/.."), None);
    assert_eq!(file_extension("/"), None);
    assert_eq!(file_extension(""), None);
}
