use markcat::path::{extension_of, extension_start, file_name_of, name_start};
use markcat::text::chars_of;
use std::path::Path;

#[test]
fn file_name_is_the_last_segment() {
    assert_eq!(file_name_of("a.rs"), "a.rs");
    assert_eq!(file_name_of("./a.rs"), "a.rs");
    assert_eq!(file_name_of("/tmp/tree/README.md"), "README.md");
    assert_eq!(file_name_of("src/bin/.hidden"), ".hidden");
    assert_eq!(file_name_of("dir.d/LICENSE"), "LICENSE");
    assert_eq!(file_name_of(""), "");
}

#[test]
fn extension_follows_the_last_period() {
    assert_eq!(extension_of("a.rs"), Some("rs".to_string()));
    assert_eq!(extension_of("/x/y/archive.tar.GZ"), Some("GZ".to_string()));
    assert_eq!(extension_of("x/.config.toml"), Some("toml".to_string()));
    assert_eq!(extension_of("x/name."), Some(String::new()));
    assert_eq!(extension_of("..."), Some(String::new()));
    assert_eq!(extension_of("..a"), Some("a".to_string()));
}

#[test]
fn some_names_have_no_extension() {
    assert_eq!(extension_of("LICENSE"), None);
    assert_eq!(extension_of("/tmp/tree/script"), None);
    assert_eq!(extension_of(".gitignore"), None);
    assert_eq!(extension_of("x/.gitignore"), None);
    assert_eq!(extension_of("dir.d/LICENSE"), None);
    assert_eq!(extension_of("x/.."), None);
    assert_eq!(extension_of("."), None);
    assert_eq!(extension_of(""), None);
}

#[test]
fn name_and_extension_positions() {
    let chars = chars_of("ab/cd.ef");
    assert_eq!(name_start(&chars), 3);
    assert_eq!(extension_start(&chars, 3), Some(6));
    let chars = chars_of("ab/.cd");
    assert_eq!(name_start(&chars), 3);
    assert_eq!(extension_start(&chars, 3), None);
    assert_eq!(extension_start(&chars, 4), None);
    let chars = chars_of("plain");
    assert_eq!(name_start(&chars), 0);
    assert_eq!(extension_start(&chars, 0), None);
    assert_eq!(extension_start(&chars, 5), None);
}

#[test]
fn file_paths_agree_with_std() {
    let samples = [
        "a.rs",
        "./a.rs",
        "/tmp/tree/README.md",
        "src/.hidden",
        "src/.hidden.txt",
        "x/name.",
        "x/...",
        "x/..a",
        "x/a.b.c",
        "dir.d/LICENSE",
        "é/ü.ÄÖ",
        "a b/c d.e f",
    ];
    for p in samples {
        let std_name = Path::new(p).file_name().and_then(|n| n.to_str()).unwrap_or("");
        let std_ext = Path::new(p).extension().and_then(|e| e.to_str()).map(|e| e.to_string());
        assert_eq!(file_name_of(p), std_name, "{p:?}");
        assert_eq!(extension_of(p), std_ext, "{p:?}");
    }
}
