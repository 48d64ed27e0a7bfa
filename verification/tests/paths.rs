use webls::path::{file_name_of, parent_of, path_as_query, strip_prefix_of, with_extension_of};

fn chars(s: &str) -> Vec<char> {
    s.chars().collect()
}

fn text(v: &[char]) -> String {
    v.iter().collect()
}

#[test]
fn path_as_query_test() {
    let result = path_as_query(".config/helix/config.toml");
    assert_eq!(result, "/?0=.config&&1=helix&&2=config.toml")
}

#[test]
fn query_of_root_and_empty_paths() {
    assert_eq!(path_as_query(""), "/?");
    assert_eq!(path_as_query("/"), "/?0=/");
    assert_eq!(path_as_query("/home/user"), "/?0=/&&1=home&&2=user");
    assert_eq!(path_as_query("./a//b/./c/"), "/?0=.&&1=a&&2=b&&3=c");
}

#[test]
fn query_numbers_past_nine() {
    let p = "a/b/c/d/e/f/g/h/i/j/k";
    assert_eq!(
        path_as_query(p),
        "/?0=a&&1=b&&2=c&&3=d&&4=e&&5=f&&6=g&&7=h&&8=i&&9=j&&10=k"
    );
}

#[test]
fn file_names_as_std_reads_them() {
    for p in ["a/b.txt", "a/b/", "/", "", "..", "a/..", "./x", "a/./", "x.tar.gz"] {
        let ours = file_name_of(&chars(p)).map(|v| text(&v));
        let std = std::path::Path::new(p)
            .file_name()
            .map(|x| x.to_str().unwrap().to_string());
        assert_eq!(ours, std, "path {p:?}");
    }
}

#[test]
fn parents_as_std_reads_them() {
    for p in [
        "a/b", "a", "/", "", "/a", "a/b/c/", "./a", ".", "a//b/c", "a/b/./", "/.", "./",
        "a/./.", "//a//b//", "./a/.", "/./a", "a/..", "../x", "./.", "a/.b/c//.//",
    ] {
        let ours = parent_of(&chars(p)).map(|v| text(&v));
        let std = std::path::Path::new(p)
            .parent()
            .map(|x| x.to_str().unwrap().to_string());
        assert_eq!(ours, std, "path {p:?}");
    }
}

#[test]
fn parent_keeps_the_text() {
    assert_eq!(parent_of(&chars("a//b/c")).map(|v| text(&v)), Some("a//b".to_string()));
    assert_eq!(parent_of(&chars("/srv/./x/")).map(|v| text(&v)), Some("/srv".to_string()));
    assert_eq!(parent_of(&chars("/x")).map(|v| text(&v)), Some("/".to_string()));
    assert_eq!(parent_of(&chars("x")).map(|v| text(&v)), Some("".to_string()));
    assert_eq!(parent_of(&chars("/")), None);
}

#[test]
fn strip_prefix_as_std_reads_it() {
    let cases = [
        ("/srv/files/a/b.txt", "/srv/files"),
        ("/srv/files", "/srv/files"),
        ("/srv/other/a", "/srv/files"),
        ("/srv/files/a", "/srv/files/"),
        ("a/b", ""),
        ("/a/b", ""),
        ("/srv//a/./b/", "/srv"),
        ("/srv/./a//b/.", "/srv/"),
        ("./a/b", "."),
        ("./a/b", "./a"),
        ("a/b/", ""),
        ("//x//y//", "/"),
        ("./", ""),
        ("a", "b"),
    ];
    for (p, base) in cases {
        let ours = strip_prefix_of(&chars(p), &chars(base)).map(|v| text(&v));
        let std = std::path::Path::new(p)
            .strip_prefix(base)
            .ok()
            .map(|x| x.to_str().unwrap().to_string());
        assert_eq!(ours, std, "{p:?} - {base:?}");
    }
}

#[test]
fn strip_prefix_keeps_the_text() {
    let r = strip_prefix_of(&chars("/srv//a/./b/"), &chars("/srv")).map(|v| text(&v));
    assert_eq!(r, Some("a/./b".to_string()));
    let r = strip_prefix_of(&chars("/srv/files"), &chars("/srv/files")).map(|v| text(&v));
    assert_eq!(r, Some("".to_string()));
    assert_eq!(strip_prefix_of(&chars("/srv/other"), &chars("/srv/files")), None);
}

#[test]
fn extensions_replaced_as_std_does() {
    for p in [
        "a/b.mkv", "b", "a/.hidden", "a/b.tar.gz", "/", "", "a/..", "dir/x.", "./v.avi",
        "a//b.mkv", "a/b.mkv/", "a/b.mkv/.", "./x", "/.", "x/./",
    ] {
        for ext in ["mp4", ""] {
            let ours = text(&with_extension_of(&chars(p), &chars(ext)));
            let mut std = std::path::PathBuf::from(p);
            std.set_extension(ext);
            assert_eq!(ours, std.to_str().unwrap(), "path {p:?} ext {ext:?}");
        }
    }
}

#[test]
fn extension_replaced_in_the_text() {
    assert_eq!(text(&with_extension_of(&chars("a//b.mkv"), &chars("mp4"))), "a//b.mp4");
    assert_eq!(text(&with_extension_of(&chars("a/b.mkv/"), &chars("mp4"))), "a/b.mp4");
}
