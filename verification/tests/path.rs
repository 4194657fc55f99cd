use kstd::path::components::Component;
use kstd::path::owned::OwnedPath;
use kstd::path::{is_separator_char, Path, SEPARATOR};

#[test]
fn test_components() {
    let p = Path::new("hello/world");
    let mut c = p.components();
    assert_eq!(Some(Component::Normal("hello")), c.next());
    assert_eq!(Some(Component::Normal("world")), c.next());
    assert_eq!(None, c.next());
}

#[test]
fn test_components_absolute() {
    let p = Path::new("/hello/world");
    let mut c = p.components();
    assert_eq!(Some(Component::RootDir), c.next());
    assert_eq!(Some(Component::Normal("hello")), c.next());
    assert_eq!(Some(Component::Normal("world")), c.next());
    assert_eq!(None, c.next());
}

#[test]
fn test_empty_fragments() {
    let p = Path::new("hello///world");
    let mut c = p.components();
    assert_eq!(Some(Component::Normal("hello")), c.next());
    assert_eq!(Some(Component::Normal("world")), c.next());
    assert_eq!(None, c.next());
}

#[test]
fn test_trivial() {
    let p = Path::new("/hello");
    assert_eq!("/hello", p.to_string());
}

#[test]
fn test_to_owned() {
    let p = Path::new("hello/world").to_owned();
    assert_eq!("hello/world", p.to_string());
}

#[test]
fn test_parent() {
    let p = Path::new("/hello/world");
    assert_eq!(Some(Path::new("/hello")), p.parent());
    assert_eq!(None, p.parent().unwrap().parent());
}

#[test]
fn test_push_trivial() {
    let mut p = OwnedPath::new();
    p.push("hello");
    p.push("world");
    assert_eq!("hello/world", p.to_string());
}

#[test]
fn test_push_separators() {
    let mut p = OwnedPath::new();
    p.push("hello");
    p.push("world/");
    assert_eq!("hello/world", p.to_string());
}

#[test]
fn test_push_absolute() {
    let mut p = OwnedPath::new();
    p.push("/hello");
    p.push("world/");
    assert_eq!("/hello/world", p.to_string());
}

#[test]
fn test_into_components() {
    let mut p = OwnedPath::new();
    p.push("segment1");
    p.push("segment2");
    p.push("segment3");
    p.push("segment4");

    assert_eq!(
        vec![
            OwnedPath::from("segment1"),
            OwnedPath::from("segment2"),
            OwnedPath::from("segment3"),
            OwnedPath::from("segment4"),
        ],
        p.into_components()
    );
}

#[test]
fn test_into_components_with_specials() {
    let mut p = OwnedPath::new();
    p.push("segment1");
    p.push("segment2");
    p.push("..");
    p.push("segment3");
    p.push("segment4");
    p.push(".");
    p.push("..");
    p.push("segment5");

    assert_eq!(
        vec![
            OwnedPath::from("segment1"),
            OwnedPath::from("segment3"),
            OwnedPath::from("segment5"),
        ],
        p.into_components()
    );
}

#[test]
fn test_separator() {
    assert_eq!('/', SEPARATOR);
    assert!(is_separator_char('/'));
    assert!(!is_separator_char('\\'));
    assert!(!is_separator_char('.'));
}

#[test]
fn test_components_with_specials() {
    let p = Path::new("/foo/./bar/../baz/");
    let mut c = p.components();
    assert_eq!(Some(Component::RootDir), c.next());
    assert_eq!(Some(Component::Normal("foo")), c.next());
    assert_eq!(Some(Component::CurrentDir), c.next());
    assert_eq!(Some(Component::Normal("bar")), c.next());
    assert_eq!(Some(Component::ParentDir), c.next());
    assert_eq!(Some(Component::Normal("baz")), c.next());
    assert_eq!(None, c.next());
    assert_eq!(None, c.next());
}

#[test]
fn test_components_of_root_and_of_nothing() {
    let mut c = Path::new("//").components();
    assert_eq!(Some(Component::RootDir), c.next());
    assert_eq!(None, c.next());
    let mut c = Path::new("").components();
    assert_eq!(None, c.next());
    let mut c = Path::new("...").components();
    assert_eq!(Some(Component::Normal("...")), c.next());
    assert_eq!(None, c.next());
    let mut c = Path::new("//foo/bar").components();
    assert_eq!(Some(Component::RootDir), c.next());
    assert_eq!(Some(Component::Normal("foo")), c.next());
    assert_eq!(Some(Component::Normal("bar")), c.next());
    assert_eq!(None, c.next());
}

#[test]
fn test_components_of_text_that_is_not_ascii() {
    let p = Path::new("/grüße/日本語/.");
    let mut c = p.components();
    assert_eq!(Some(Component::RootDir), c.next());
    assert_eq!(Some(Component::Normal("grüße")), c.next());
    assert_eq!(Some(Component::Normal("日本語")), c.next());
    assert_eq!(Some(Component::CurrentDir), c.next());
    assert_eq!(None, c.next());
}

#[test]
fn test_parent_of_other_paths() {
    assert_eq!(None, Path::new("hello").parent());
    assert_eq!(None, Path::new("/").parent());
    assert_eq!(None, Path::new("").parent());
    assert_eq!(Some(Path::new("a")), Path::new("a/b").parent());
    assert_eq!(Some(Path::new("a")), Path::new("a/b///").parent());
    assert_eq!(Some(Path::new("a/")), Path::new("a//b").parent());
    assert_eq!(Some(Path::new("/a/b")), Path::new("/a/b/..").parent());
    assert_eq!("a/b", Path::new("a/b").as_str());
    assert!(Path::new("").is_empty());
    assert!(!Path::new("a").is_empty());
}

#[test]
fn test_push_parent_dir() {
    let mut path = OwnedPath::from("foo/bar");
    path.push("..");
    assert_eq!(path.to_string(), "foo");

    let mut path = OwnedPath::from("foo");
    path.push("..");
    assert_eq!(path.to_string(), "foo/");

    let mut path = OwnedPath::from("/foo");
    path.push("..");
    assert_eq!(path.to_string(), "");
    path.push("bar");
    assert_eq!(path.to_string(), "bar");
}

#[test]
fn test_push_root_and_current_dir() {
    let mut path = OwnedPath::from("foo");
    path.push("/bar");
    assert_eq!(path.to_string(), "foo/bar");

    let mut path = OwnedPath::new();
    path.push("/");
    assert_eq!(path.to_string(), "/");
    path.push("foo");
    assert_eq!(path.to_string(), "/foo");
    path.push(".");
    assert_eq!(path.to_string(), "/foo/");
    path.push("bar");
    assert_eq!(path.to_string(), "/foo/bar");
    path.push("");
    assert_eq!(path.to_string(), "/foo/bar");
}

#[test]
fn test_owned_path_len() {
    let path = OwnedPath::default();
    assert!(path.is_empty());
    assert_eq!(0, path.len());
    let path = OwnedPath::from("/grüße/");
    assert!(!path.is_empty());
    assert_eq!(8, path.len());
    assert_eq!("/grüße", path.to_string());
    let mut c = path.components();
    assert_eq!(Some(Component::RootDir), c.next());
    assert_eq!(Some(Component::Normal("grüße")), c.next());
    assert_eq!(None, c.next());
    assert!(OwnedPath::from("a") < OwnedPath::from("b"));
    assert_eq!(Path::new("/grüße"), path.as_path());
    assert_eq!(None, path.as_path().parent());
    assert_eq!(path.clone(), path);
}

#[test]
fn test_into_components_drops_what_a_parent_dir_takes() {
    assert_eq!(
        vec![OwnedPath::from("my"), OwnedPath::from("path")],
        OwnedPath::from("/my/path").into_components()
    );
    let mut p = OwnedPath::new();
    p.push("a");
    p.push("b");
    assert_eq!(
        vec![OwnedPath::from("a"), OwnedPath::from("b")],
        p.into_components()
    );
    assert_eq!(Vec::<OwnedPath>::new(), OwnedPath::new().into_components());
}
