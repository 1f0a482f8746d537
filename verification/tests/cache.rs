use papier::cache::{cache_path, join};

fn some(text: &str) -> Option<Vec<u8>> {
    Some(text.as_bytes().to_vec())
}

#[test]
fn the_cache_home_comes_first() {
    let path = cache_path(&some("/var/cache/me"), &some("/home/me"));
    assert_eq!(path.directory, b"/var/cache/me/papier");
    assert_eq!(path.file, b"/var/cache/me/papier/cache");
    assert_eq!(path, cache_path(&some("/var/cache/me"), &None));
}

#[test]
fn the_home_directory_comes_second() {
    let path = cache_path(&None, &some("/home/me"));
    assert_eq!(path.directory, b"/home/me/.cache/papier");
    assert_eq!(path.file, b"/home/me/.cache/papier/cache");
}

#[test]
fn separators_are_not_doubled() {
    let path = cache_path(&None, &some("/"));
    assert_eq!(path.file, b"/.cache/papier/cache");
    let path = cache_path(&some("/caches/"), &None);
    assert_eq!(path.file, b"/caches/papier/cache");
}

#[test]
fn an_empty_cache_home_is_the_current_directory() {
    let path = cache_path(&some(""), &some("/home/me"));
    assert_eq!(path.file, b"papier/cache");
}

#[test]
fn paths_need_not_be_text() {
    let path = cache_path(&Some(vec![0x2f, 0xff, 0xfe]), &None);
    assert_eq!(path.directory, b"/\xff\xfe/papier");
}

#[test]
fn joining_agrees_with_the_paths_of_the_standard_library() {
    for base in ["", "/", "a", "a/", "/a/b", "a//"] {
        for part in ["x", "x/y", "/x", ""] {
            let expected = std::path::Path::new(base).join(part);
            let joined = join(&base.as_bytes().to_vec(), part);
            assert_eq!(joined, expected.to_str().unwrap().as_bytes());
        }
    }
}

#[test]
fn the_directory_is_the_parent_of_the_file() {
    for home in ["/", "/home/me", "home", ""] {
        let path = cache_path(&None, &some(home));
        let file = String::from_utf8(path.file).unwrap();
        let parent = std::path::Path::new(&file).parent().unwrap();
        assert_eq!(parent.to_str().unwrap().as_bytes(), path.directory);
    }
}
