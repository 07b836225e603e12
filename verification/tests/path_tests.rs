use mksite::error::Error;
use mksite::path::{swap_prefix, SitePath};

fn p(s: &str) -> SitePath {
    SitePath::from_segs(s.split('/').map(|x| x.as_bytes().to_vec()).collect())
}

#[test]
fn swap_prefix_rewrites_the_root() {
    let dest = swap_prefix(&p("src/blog/post.md"), &p("src"), &p("out")).unwrap();
    assert_eq!(dest, p("out/blog/post.md"));
}

#[test]
fn swap_prefix_handles_multi_segment_roots() {
    let dest = swap_prefix(&p("a/b/c/d.txt"), &p("a/b"), &p("x")).unwrap();
    assert_eq!(dest, p("x/c/d.txt"));
}

#[test]
fn swap_prefix_round_trip_is_identity() {
    let original = p("src/deep/nested/file.html");
    let there = swap_prefix(&original, &p("src"), &p("out/sub")).unwrap();
    let back = swap_prefix(&there, &p("out/sub"), &p("src")).unwrap();
    assert_eq!(back, original);
}

#[test]
fn swap_prefix_reports_a_missing_prefix() {
    let r = swap_prefix(&p("other/file.md"), &p("src"), &p("out"));
    assert_eq!(
        r,
        Err(Error::StripPath {
            path: p("other/file.md"),
            prefix: p("src"),
        })
    );
}

#[test]
fn extension_is_the_part_after_the_last_dot() {
    assert_eq!(p("src/post.md").extension(), Some(b"md".to_vec()));
    assert_eq!(p("src/archive.tar.gz").extension(), Some(b"gz".to_vec()));
    assert_eq!(p("src/noext").extension(), None);
}

#[test]
fn extension_of_a_hidden_file_is_none() {
    assert_eq!(p("src/.hidden").extension(), None);
    assert_eq!(p("src/.hidden.md").extension(), Some(b"md".to_vec()));
}

#[test]
fn extension_after_a_trailing_dot_is_empty() {
    assert_eq!(p("src/name.").extension(), Some(b"".to_vec()));
}

#[test]
fn with_extension_replaces_only_the_extension() {
    assert_eq!(p("out/page.md").with_extension(&b"html".to_vec()), p("out/page.html"));
    assert_eq!(p("out/a.b.c").with_extension(&b"html".to_vec()), p("out/a.b.html"));
    assert_eq!(p("out/noext").with_extension(&b"html".to_vec()), p("out/noext.html"));
    assert_eq!(p("out/.hidden").with_extension(&b"html".to_vec()), p("out/.hidden.html"));
}

#[test]
fn with_empty_extension_drops_the_extension() {
    assert_eq!(p("out/page.md").with_extension(&b"".to_vec()), p("out/page"));
}

#[test]
fn to_name_joins_components_with_slashes() {
    assert_eq!(p("src/blog/post.md").to_name().unwrap(), "src/blog/post.md");
    assert_eq!(p("src").to_name().unwrap(), "src");
}

#[test]
fn to_name_rejects_bytes_that_are_not_utf8() {
    let bad = SitePath::from_segs(vec![b"src".to_vec(), vec![0xff, 0xfe]]);
    let r = bad.to_name();
    assert!(matches!(r, Err(Error::PathConversion { .. })));
}

#[test]
fn path_eq_compares_by_contents() {
    assert!(p("a/b").path_eq(&p("a/b")));
    assert!(!p("a/b").path_eq(&p("a/c")));
    assert!(!p("a/b").path_eq(&p("a/b/c")));
}

#[test]
fn starts_with_checks_whole_components() {
    assert!(p("src/x/y").starts_with(&p("src/x")));
    assert!(p("src/x").starts_with(&p("src/x")));
    assert!(!p("srcdir/x").starts_with(&p("src")));
    assert!(!p("src").starts_with(&p("src/x")));
}

#[test]
fn duplicate_is_a_fresh_equal_path() {
    let a = p("src/page.md");
    let b = a.duplicate();
    assert_eq!(a, b);
}
