use mksite::config::{Config, Dirs, ExtRule, Ignores, TargetRule};
use mksite::error::Error;
use mksite::mapping::Mapping;
use mksite::path::SitePath;
use mksite::site::{RenderedPage, Site};
use mksite::transform::{Transform, TransformRun};

fn p(s: &str) -> SitePath {
    SitePath::from_segs(s.split('/').map(|x| x.as_bytes().to_vec()).collect())
}

fn dirs() -> Dirs {
    Dirs {
        src: p("src"),
        out: p("out"),
        static_dir: p("static"),
        layout: p("layout"),
    }
}

fn md_rules() -> Vec<ExtRule> {
    vec![ExtRule {
        ext: b"md".to_vec(),
        targets: vec![
            TargetRule {
                ext: b"html".to_vec(),
                transform: Transform::Single("pandoc -t html".to_string()),
            },
            TargetRule {
                ext: b"txt".to_vec(),
                transform: Transform::Chain(vec!["strip".to_string(), "wrap".to_string()]),
            },
        ],
    }]
}

fn config_with(ignores: Ignores, transforms: Vec<ExtRule>) -> Config {
    Config { dirs: dirs(), ignores, transforms }
}

fn no_ignores() -> Ignores {
    Ignores { template: Vec::new(), transform: Vec::new(), layout: Vec::new() }
}

fn page(path: &str, content: &[u8]) -> RenderedPage {
    RenderedPage { source: p(path), content: content.to_vec() }
}

#[test]
fn a_page_with_configured_transforms_fans_out() {
    let mut site = Site::new(config_with(no_ignores(), md_rules()), Vec::new(), None);
    site.prepare_mappings(&vec![page("src/page.md", b"hello")]).unwrap();

    assert_eq!(site.mappings.len(), 2);
    assert_eq!(site.mappings[0].destination, p("out/page.html"));
    assert_eq!(
        site.mappings[0].transform,
        Some(Transform::Single("pandoc -t html".to_string()))
    );
    assert_eq!(site.mappings[0].content, b"hello".to_vec());
    assert_eq!(site.mappings[1].destination, p("out/page.txt"));
    assert_eq!(
        site.mappings[1].transform,
        Some(Transform::Chain(vec!["strip".to_string(), "wrap".to_string()]))
    );
    assert_eq!(site.mappings[1].content, b"hello".to_vec());
    assert_eq!(site.mappings[0].source, p("src/page.md"));
    assert_eq!(site.mappings[1].source, p("src/page.md"));
}

#[test]
fn an_unconfigured_extension_passes_through() {
    let mut site = Site::new(config_with(no_ignores(), md_rules()), Vec::new(), None);
    site.prepare_mappings(&vec![page("src/style.css", b"body{}")]).unwrap();

    assert_eq!(site.mappings.len(), 1);
    assert_eq!(site.mappings[0].destination, p("out/style.css"));
    assert_eq!(site.mappings[0].transform, None);
    assert_eq!(site.mappings[0].content, b"body{}".to_vec());
}

#[test]
fn a_page_without_extension_passes_through() {
    let mut site = Site::new(config_with(no_ignores(), md_rules()), Vec::new(), None);
    site.prepare_mappings(&vec![page("src/README", b"plain")]).unwrap();

    assert_eq!(site.mappings.len(), 1);
    assert_eq!(site.mappings[0].destination, p("out/README"));
    assert_eq!(site.mappings[0].transform, None);
}

#[test]
fn a_transform_ignored_destination_is_not_transformed() {
    let ignores = Ignores {
        template: Vec::new(),
        transform: vec![p("out/page.md")],
        layout: Vec::new(),
    };
    let mut site = Site::new(config_with(ignores, md_rules()), Vec::new(), None);
    site.prepare_mappings(&vec![page("src/page.md", b"hello")]).unwrap();

    assert_eq!(site.mappings.len(), 1);
    assert_eq!(site.mappings[0].destination, p("out/page.md"));
    assert_eq!(site.mappings[0].transform, None);
    assert_eq!(site.mappings[0].content, b"hello".to_vec());
}

#[test]
fn a_transform_ignored_destination_still_gets_a_layout() {
    let ignores = Ignores {
        template: Vec::new(),
        transform: vec![p("out/page.md")],
        layout: Vec::new(),
    };
    let layouts = vec![p("layout/_.md")];
    let mut site = Site::new(config_with(ignores, md_rules()), Vec::new(), Some(layouts));

    site.prepare_mappings(&vec![page("src/page.md", b"hello")]).unwrap();
    assert_eq!(site.mappings.len(), 1);
    assert_eq!(site.mappings[0].transform, None);

    // The layout stage is untouched by the transform ignore list.
    let r = site.find_layout(&site.mappings[0]).unwrap();
    assert_eq!(r, Some(p("layout/_.md")));
}

#[test]
fn fanned_out_mappings_carry_independent_content() {
    let mut site = Site::new(config_with(no_ignores(), md_rules()), Vec::new(), None);
    site.prepare_mappings(&vec![page("src/page.md", b"hello")]).unwrap();

    site.mappings[0].content = b"changed".to_vec();
    assert_eq!(site.mappings[1].content, b"hello".to_vec());
}

#[test]
fn a_page_outside_the_source_root_stops_the_build() {
    let mut site = Site::new(config_with(no_ignores(), md_rules()), Vec::new(), None);
    let r = site.prepare_mappings(&vec![
        page("src/good.md", b"ok"),
        page("elsewhere/bad.md", b"no"),
    ]);
    assert_eq!(
        r,
        Err(Error::StripPath { path: p("elsewhere/bad.md"), prefix: p("src") })
    );
    // The page before the failing one is already mapped.
    assert_eq!(site.mappings.len(), 2);
}

#[test]
fn mapping_the_same_pages_twice_gives_identical_mappings() {
    let pages = vec![page("src/page.md", b"hello"), page("src/style.css", b"x")];
    let mut site1 = Site::new(config_with(no_ignores(), md_rules()), Vec::new(), None);
    let mut site2 = Site::new(config_with(no_ignores(), md_rules()), Vec::new(), None);
    site1.prepare_mappings(&pages).unwrap();
    site2.prepare_mappings(&pages).unwrap();
    assert_eq!(site1.mappings, site2.mappings);
}

fn mapping_to(dest: &str) -> Mapping {
    Mapping {
        source: p("src/whatever"),
        destination: p(dest),
        transform: None,
        content: Vec::new(),
    }
}

#[test]
fn an_exact_layout_match_wins() {
    let layouts = vec![p("layout/blog/post.html"), p("layout/_.html")];
    let site = Site::new(config_with(no_ignores(), Vec::new()), Vec::new(), Some(layouts));
    let r = site.find_layout(&mapping_to("out/blog/post.html")).unwrap();
    assert_eq!(r, Some(p("layout/blog/post.html")));
}

#[test]
fn the_nearest_wildcard_layout_wins() {
    let layouts = vec![p("layout/_.html"), p("layout/blog/_.html")];
    let site = Site::new(config_with(no_ignores(), Vec::new()), Vec::new(), Some(layouts));

    let blog = site.find_layout(&mapping_to("out/blog/post.html")).unwrap();
    assert_eq!(blog, Some(p("layout/blog/_.html")));

    let other = site.find_layout(&mapping_to("out/other/page.html")).unwrap();
    assert_eq!(other, Some(p("layout/_.html")));
}

#[test]
fn a_destination_without_extension_matches_a_bare_underscore() {
    let layouts = vec![p("layout/_")];
    let site = Site::new(config_with(no_ignores(), Vec::new()), Vec::new(), Some(layouts));
    let r = site.find_layout(&mapping_to("out/notes/README")).unwrap();
    assert_eq!(r, Some(p("layout/_")));
}

#[test]
fn no_matching_layout_means_none() {
    let layouts = vec![p("layout/blog/_.html")];
    let site = Site::new(config_with(no_ignores(), Vec::new()), Vec::new(), Some(layouts));
    let r = site.find_layout(&mapping_to("out/other/page.html")).unwrap();
    assert_eq!(r, None);
}

#[test]
fn a_missing_layout_directory_disables_layouts() {
    let site = Site::new(config_with(no_ignores(), Vec::new()), Vec::new(), None);
    let r = site.find_layout(&mapping_to("out/blog/post.html")).unwrap();
    assert_eq!(r, None);
}

#[test]
fn a_layout_ignored_destination_gets_no_layout_but_still_transforms() {
    let ignores = Ignores {
        template: Vec::new(),
        transform: Vec::new(),
        layout: vec![p("out/page.html")],
    };
    let layouts = vec![p("layout/_.html")];
    let mut site = Site::new(config_with(ignores, md_rules()), Vec::new(), Some(layouts));

    // The transform stage is untouched by the layout ignore list.
    site.prepare_mappings(&vec![page("src/page.md", b"hello")]).unwrap();
    assert_eq!(site.mappings[0].destination, p("out/page.html"));
    assert!(site.mappings[0].transform.is_some());

    // The layout stage skips the ignored destination.
    let r = site.find_layout(&site.mappings[0]).unwrap();
    assert_eq!(r, None);

    // A sibling that is not ignored still gets the layout.
    let r2 = site.find_layout(&mapping_to("out/other.html")).unwrap();
    assert_eq!(r2, Some(p("layout/_.html")));
}

#[test]
fn a_destination_outside_the_output_root_is_an_error() {
    let layouts = vec![p("layout/_.html")];
    let site = Site::new(config_with(no_ignores(), Vec::new()), Vec::new(), Some(layouts));
    let r = site.find_layout(&mapping_to("elsewhere/page.html"));
    assert_eq!(
        r,
        Err(Error::StripPath { path: p("elsewhere/page.html"), prefix: p("out") })
    );
}

#[test]
fn static_assets_map_into_the_output_root() {
    let site = Site::new(config_with(no_ignores(), Vec::new()), Vec::new(), None);
    let d = site.static_destination(&p("static/img/logo.png")).unwrap();
    assert_eq!(d, p("out/img/logo.png"));
}

#[test]
fn template_ignored_sources_are_not_templates() {
    let ignores = Ignores {
        template: vec![p("src/raw.bin")],
        transform: Vec::new(),
        layout: Vec::new(),
    };
    let site = Site::new(config_with(ignores, Vec::new()), Vec::new(), None);
    assert!(!site.is_template(&p("src/raw.bin")));
    assert!(site.is_template(&p("src/page.md")));
}

#[test]
fn mapping_transform_drives_a_run_to_new_content() {
    let mut m = Mapping {
        source: p("src/page.md"),
        destination: p("out/page.html"),
        transform: Some(Transform::Single("pandoc".to_string())),
        content: b"hello".to_vec(),
    };
    let mut run: TransformRun = m.transform().unwrap();
    assert_eq!(run.content, b"hello".to_vec());
    assert_eq!(run.pending().unwrap(), "pandoc");
    run.advance(b"<p>hello</p>".to_vec());
    assert!(run.is_finished());
    m.complete(run);
    assert_eq!(m.content, b"<p>hello</p>".to_vec());
    assert_eq!(m.destination, p("out/page.html"));
}

#[test]
fn mapping_without_transform_has_no_run() {
    let m = mapping_to("out/page.html");
    assert!(m.transform().is_none());
}

#[test]
fn layout_text_decodes_the_content() {
    let mut m = mapping_to("out/page.html");
    m.content = b"hello".to_vec();
    assert_eq!(m.layout_text().unwrap(), "hello");
}

#[test]
fn layout_text_rejects_content_that_is_not_utf8() {
    let mut m = mapping_to("out/page.html");
    m.content = vec![0xff, 0xfe];
    assert_eq!(m.layout_text(), Err(Error::FromUtf8 { path: p("out/page.html") }));
}

#[test]
fn the_default_directories_are_conventional() {
    assert_eq!(Dirs::default_src(), p("src"));
    assert_eq!(Dirs::default_out(), p("out"));
    assert_eq!(Dirs::default_static(), p("static"));
    assert_eq!(Dirs::default_layout(), p("layout"));
    let d = Dirs::default();
    assert_eq!(d.src, p("src"));
    assert_eq!(d.layout, p("layout"));
}

#[test]
fn the_default_config_ignores_and_transforms_nothing() {
    let c = Config::default();
    assert!(c.ignores.template.is_empty());
    assert!(c.ignores.transform.is_empty());
    assert!(c.ignores.layout.is_empty());
    assert!(c.transforms.is_empty());
    assert_eq!(c.dirs.out, p("out"));
}

#[test]
fn lookup_targets_finds_the_configured_extension() {
    let c = config_with(no_ignores(), md_rules());
    let ts = c.lookup_targets(&b"md".to_vec()).unwrap();
    assert_eq!(ts.len(), 2);
    assert_eq!(ts[0].ext, b"html".to_vec());
    assert!(c.lookup_targets(&b"css".to_vec()).is_none());
}
