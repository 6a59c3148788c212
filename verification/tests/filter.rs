use markcat::filter::{matches_filter, parse_filter, Filter};

fn filter(spec: &str) -> Filter {
    parse_filter(Some(spec)).unwrap()
}

#[test]
fn absent_specification_gives_no_filter() {
    assert!(parse_filter(None).is_none());
    assert!(parse_filter(Some("")).is_some());
}

#[test]
fn default_filter_matches_nothing() {
    let f = Filter::default();
    assert!(!f.matches_no_extension());
    assert!(!f.has_extension("rs"));
    assert!(!f.has_name("rs"));
    assert!(!matches_filter("a.rs", &f));
    assert!(!matches_filter("LICENSE", &f));
}

#[test]
fn empty_specification_matches_nothing() {
    for spec in ["", " ", ",", " , ,, \t "] {
        let f = filter(spec);
        assert!(!f.matches_no_extension(), "{spec:?}");
        assert!(!f.has_extension(""), "{spec:?}");
        assert!(!f.has_name(""), "{spec:?}");
        assert!(!matches_filter("a.rs", &f), "{spec:?}");
        assert!(!matches_filter("LICENSE", &f), "{spec:?}");
        assert!(!matches_filter("name.", &f), "{spec:?}");
    }
}

#[test]
fn dotted_token_adds_the_lowercased_remainder() {
    let f = filter(".RS,.Tar.GZ");
    assert!(f.has_extension("rs"));
    assert!(f.has_extension("tar.gz"));
    assert!(!f.has_extension("RS"));
    assert!(!f.has_extension(".rs"));
    assert!(!f.has_name(".RS"));
    assert!(!f.has_name("rs"));
    assert!(!f.has_name("RS"));
    assert!(!f.matches_no_extension());
}

#[test]
fn extension_matching_ignores_case() {
    let f = filter(".Rs");
    assert!(matches_filter("a.rs", &f));
    assert!(matches_filter("a.RS", &f));
    assert!(matches_filter("dir/b.rS", &f));
    assert!(!matches_filter("a.rss", &f));
    assert!(!matches_filter("rs", &f));
    assert!(!matches_filter("Rs", &f));
    assert!(!matches_filter(".rs", &f));
}

#[test]
fn bare_token_is_an_extension_and_a_name() {
    let f = filter("Makefile");
    assert!(f.has_extension("makefile"));
    assert!(!f.has_extension("Makefile"));
    assert!(f.has_name("Makefile"));
    assert!(!f.has_name("makefile"));
    assert!(matches_filter("Makefile", &f));
    assert!(matches_filter("src/Makefile", &f));
    assert!(matches_filter("x.makefile", &f));
    assert!(matches_filter("x.MAKEFILE", &f));
    assert!(!matches_filter("makefile", &f));
    assert!(!matches_filter("MAKEFILE", &f));
}

#[test]
fn bare_token_matches_a_name_with_and_as_extension() {
    let f = filter("LICENSE");
    assert!(matches_filter("LICENSE", &f));
    assert!(matches_filter("COPYING.LICENSE", &f));
    assert!(matches_filter("COPYING.license", &f));
    assert!(!matches_filter("license", &f));
    assert!(!matches_filter("LICENSE.txt", &f));
}

#[test]
fn marker_in_any_case_matches_files_without_extension() {
    for spec in ["noext", "NOEXT", "NoExt", " nOeXt ", "rs, NOEXT"] {
        let f = filter(spec);
        assert!(f.matches_no_extension(), "{spec:?}");
        assert!(!f.has_extension("noext"), "{spec:?}");
        assert!(!f.has_name("noext"), "{spec:?}");
        assert!(!f.has_name(spec), "{spec:?}");
        assert!(matches_filter("LICENSE", &f), "{spec:?}");
        assert!(matches_filter("dir/script", &f), "{spec:?}");
        assert!(matches_filter(".gitignore", &f), "{spec:?}");
        assert!(!matches_filter("README.md", &f), "{spec:?}");
        assert!(!matches_filter("name.", &f), "{spec:?}");
    }
}

#[test]
fn marker_with_a_period_is_an_extension() {
    let f = filter(".noext");
    assert!(!f.matches_no_extension());
    assert!(f.has_extension("noext"));
    assert!(!matches_filter("LICENSE", &f));
    assert!(matches_filter("a.NoExt", &f));
}

#[test]
fn tokens_are_trimmed_and_empty_ones_dropped() {
    let f = filter("  rs ,, .MD ,\tLICENSE\n,");
    assert!(f.has_extension("rs"));
    assert!(f.has_name("rs"));
    assert!(f.has_extension("md"));
    assert!(!f.has_name("md"));
    assert!(!f.has_name(".MD"));
    assert!(f.has_extension("license"));
    assert!(f.has_name("LICENSE"));
    assert!(!f.has_extension(""));
    assert!(!f.has_name(""));
    assert!(!f.has_name(" rs "));
    assert!(!f.matches_no_extension());
}

#[test]
fn inner_whitespace_stays_in_a_token() {
    let f = filter("my file , a b");
    assert!(f.has_name("my file"));
    assert!(f.has_extension("a b"));
    assert!(matches_filter("dir/my file", &f));
    assert!(matches_filter("x.A b", &f));
}

#[test]
fn lone_period_names_the_empty_extension() {
    let f = filter(".");
    assert!(f.has_extension(""));
    assert!(!f.has_name("."));
    assert!(!f.has_name(""));
    assert!(matches_filter("name.", &f));
    assert!(!matches_filter("name", &f));
    assert!(!matches_filter("a.rs", &f));
}

#[test]
fn duplicate_tokens_are_absorbed() {
    let once = filter("rs");
    let twice = filter("rs,RS,.rs,rs");
    for path in ["a.rs", "a.RS", "rs", "RS", "a.md", "x"] {
        assert_eq!(
            matches_filter(path, &twice),
            matches_filter(path, &once) || path == "RS",
            "{path:?}"
        );
    }
    assert!(twice.has_name("rs"));
    assert!(twice.has_name("RS"));
    assert!(twice.has_extension("rs"));
}

#[test]
fn only_the_file_name_is_looked_at() {
    let f = filter("rs,LICENSE,noext");
    assert!(!matches_filter("LICENSE/README.md", &f));
    assert!(!matches_filter("src.rs/README.md", &f));
    assert!(matches_filter("dir.d/script", &f));
    assert!(matches_filter("a.b/c.rs", &f));
}

#[test]
fn allow_list_of_extension_name_and_marker() {
    let f = filter("rs,LICENSE,noext");
    assert!(matches_filter("a.rs", &f));
    assert!(matches_filter("LICENSE", &f));
    assert!(matches_filter("script", &f));
    assert!(!matches_filter("README.md", &f));
}

#[test]
fn deny_list_of_extension_and_marker() {
    let f = filter("md,noext");
    assert!(matches_filter("README.md", &f));
    assert!(matches_filter("LICENSE", &f));
    assert!(matches_filter("script", &f));
    assert!(!matches_filter("a.rs", &f));
}

#[test]
fn non_ascii_letters_are_not_folded() {
    let f = filter("É,.Ü");
    assert!(f.has_extension("É"));
    assert!(f.has_extension("Ü"));
    assert!(!f.has_extension("é"));
    assert!(matches_filter("a.É", &f));
    assert!(!matches_filter("a.é", &f));
}
