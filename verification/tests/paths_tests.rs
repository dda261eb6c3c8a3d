use shellbooks::paths::{components, file_name, same_path};

#[test]
fn same_path_compares_components() {
    assert!(same_path("a/b", "a/b"));
    assert!(same_path("a/b/", "a/b"));
    assert!(same_path("a//b", "a/b"));
    assert!(same_path("a/./b", "a/b"));
    assert!(same_path("a/b/.", "a/b"));
    assert!(same_path("/a/b", "//a/b"));
    assert!(!same_path("./a/b", "a/b"));
    assert!(!same_path("/a/b", "a/b"));
    assert!(!same_path("a/../b", "b"));
    assert!(!same_path("a/b", "a/c"));
}

#[test]
fn components_of_a_path() {
    let cs = |p: &str| -> Vec<String> { components(p).into_iter().map(|c| c.into_iter().collect()).collect() };
    assert_eq!(cs("/usr//lib/./x/"), vec!["/", "usr", "lib", "x"]);
    assert_eq!(cs("./a"), vec![".", "a"]);
    assert_eq!(cs("."), vec!["."]);
    assert_eq!(cs(""), Vec::<String>::new());
    assert_eq!(cs("a/.."), vec!["a", ".."]);
}

#[test]
fn file_name_is_the_last_normal_component() {
    assert_eq!(file_name("/lib/Book/01.mp3").as_deref(), Some("01.mp3"));
    assert_eq!(file_name("foo.m4b").as_deref(), Some("foo.m4b"));
    assert_eq!(file_name("/lib/Book/").as_deref(), Some("Book"));
    assert_eq!(file_name("/lib/Book/.").as_deref(), Some("Book"));
    assert_eq!(file_name("/lib/.."), None);
    assert_eq!(file_name("/"), None);
    assert_eq!(file_name("."), None);
    assert_eq!(file_name(""), None);
}
