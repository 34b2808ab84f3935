use rust_cdn::path::leaf_name;
use rust_cdn::path::path_segments;
use rust_cdn::path::sanitize_name;
use rust_cdn::path::split_first_segment;

fn strings(parts: &[&str]) -> Vec<String> {
    parts.iter().map(|p| p.to_string()).collect()
}

#[test]
fn segments_of_plain_paths() {
    assert_eq!(path_segments("/file/hello.txt"), strings(&["file", "hello.txt"]));
    assert_eq!(path_segments("abc"), strings(&["abc"]));
    assert_eq!(path_segments("a/b"), strings(&["a", "b"]));
}

#[test]
fn segments_drop_empty_pieces() {
    assert_eq!(path_segments(""), strings(&[]));
    assert_eq!(path_segments("/"), strings(&[]));
    assert_eq!(path_segments("///"), strings(&[]));
    assert_eq!(path_segments("//a///b/"), strings(&["a", "b"]));
    assert_eq!(path_segments("a/"), strings(&["a"]));
}

#[test]
fn segments_keep_dots_and_other_characters() {
    assert_eq!(path_segments("../../etc/passwd"), strings(&["..", "..", "etc", "passwd"]));
    assert_eq!(path_segments("/./x y/%2F"), strings(&[".", "x y", "%2F"]));
    assert_eq!(
        path_segments("/caf\u{e9}/\u{1f600}s/z"),
        strings(&["caf\u{e9}", "\u{1f600}s", "z"])
    );
}

#[test]
fn sanitize_takes_the_leaf() {
    assert_eq!(sanitize_name("../../etc/passwd"), "passwd");
    assert_eq!(sanitize_name("/etc/passwd"), "passwd");
    assert_eq!(sanitize_name("a/b/"), "b");
    assert_eq!(sanitize_name("a/b//"), "b");
    assert_eq!(sanitize_name("./a"), "a");
    assert_eq!(sanitize_name("dir/\u{fc}ber.txt"), "\u{fc}ber.txt");
}

#[test]
fn sanitize_keeps_a_plain_name() {
    assert_eq!(sanitize_name("hello.txt"), "hello.txt");
    assert_eq!(sanitize_name("..."), "...");
    assert_eq!(sanitize_name(".hidden"), ".hidden");
    assert_eq!(sanitize_name("a..b"), "a..b");
    assert_eq!(sanitize_name("with space"), "with space");
}

#[test]
fn sanitize_skips_trailing_dot_segments() {
    assert_eq!(sanitize_name("a/."), "a");
    assert_eq!(sanitize_name("a/./"), "a");
    assert_eq!(sanitize_name("a/././/."), "a");
    assert_eq!(sanitize_name("x/a/."), "a");
}

#[test]
fn sanitize_keeps_a_path_without_a_leaf() {
    assert_eq!(sanitize_name(""), "");
    assert_eq!(sanitize_name("/"), "/");
    assert_eq!(sanitize_name("."), ".");
    assert_eq!(sanitize_name("./"), "./");
    assert_eq!(sanitize_name(".."), "..");
    assert_eq!(sanitize_name("a/.."), "a/..");
    assert_eq!(sanitize_name("a/../"), "a/../");
    assert_eq!(sanitize_name("a/../."), "a/../.");
}

#[test]
fn sanitize_agrees_with_the_final_component_of_a_path() {
    let inputs = [
        "", "/", ".", "..", "./", "../", "a", "a/", "a/b", "/a/b", "a/.", "a/..", "a/./b", "a//b",
        "./a", "../a", "a/b/..", "a/b/.", "...", "a/.../", ".a", "a.", "/.", "/..", "//", "a/. ",
        "../../etc/passwd", "x/y/z.txt", "./.", "././x", "x/./.", " ", "a b/c d",
    ];
    for input in inputs {
        let expected = match std::path::Path::new(input).file_name() {
            Some(leaf) => leaf.to_str().unwrap().to_string(),
            None => input.to_string(),
        };
        assert_eq!(sanitize_name(input), expected, "input {:?}", input);
    }
}

#[test]
fn sanitize_twice_is_sanitize_once() {
    for input in ["a/b", "../x", "a/..", ".", "plain", "/x/y/", ""] {
        let once = sanitize_name(input);
        assert_eq!(sanitize_name(&once), once);
    }
}

#[test]
fn sanitized_leaf_holds_no_separator() {
    for input in ["a/b", "../x", "/x/y/", "../../etc/passwd", "a/./b/."] {
        let leaf = sanitize_name(input);
        assert!(!leaf.contains('/'));
        assert!(!leaf.is_empty());
        assert_ne!(leaf, ".");
        assert_ne!(leaf, "..");
    }
}

#[test]
fn leaf_name_is_the_final_component() {
    assert_eq!(leaf_name("a/b"), Some("b".to_string()));
    assert_eq!(leaf_name("../../etc/passwd"), Some("passwd".to_string()));
    assert_eq!(leaf_name("plain.txt"), Some("plain.txt".to_string()));
    assert_eq!(leaf_name("a/./"), Some("a".to_string()));
    assert_eq!(leaf_name(""), None);
    assert_eq!(leaf_name("/"), None);
    assert_eq!(leaf_name("."), None);
    assert_eq!(leaf_name(".."), None);
    assert_eq!(leaf_name("a/.."), None);
    assert_eq!(leaf_name("a/../."), None);
}

#[test]
fn leaf_name_agrees_with_the_final_component_of_a_path() {
    let inputs = [
        "", "/", ".", "..", "a", "a/", "a/b", "a/.", "a/..", "./a", "../a", "a/b/..", "...",
        "/..", "//", "x/y/z.txt", "./.", "x/./.", "a b/c d",
    ];
    for input in inputs {
        let expected = std::path::Path::new(input)
            .file_name()
            .map(|leaf| leaf.to_str().unwrap().to_string());
        assert_eq!(leaf_name(input), expected, "input {:?}", input);
    }
}

fn split(first: &str, rest: &str) -> Option<(String, String)> {
    Some((first.to_string(), rest.to_string()))
}

#[test]
fn split_first_segment_of_a_path() {
    assert_eq!(split_first_segment("/file/a/b"), split("file", "a/b"));
    assert_eq!(split_first_segment("file/a/b"), split("file", "a/b"));
    assert_eq!(split_first_segment("///file//a/"), split("file", "/a/"));
    assert_eq!(split_first_segment("/file"), split("file", ""));
    assert_eq!(split_first_segment("/file/"), split("file", ""));
    assert_eq!(split_first_segment("x"), split("x", ""));
    assert_eq!(
        split_first_segment("/\u{e9}t\u{e9}/\u{1f600}"),
        split("\u{e9}t\u{e9}", "\u{1f600}")
    );
}

#[test]
fn split_first_segment_of_a_path_without_segments() {
    assert_eq!(split_first_segment(""), None);
    assert_eq!(split_first_segment("/"), None);
    assert_eq!(split_first_segment("///"), None);
}
