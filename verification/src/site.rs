//! The site being built: its sources, layouts and mappings, and the
//! decisions of the build pipeline over them.
//!
//! Everything here is a function of the rendered sources and the
//! configuration: where each page goes, into how many outputs it fans out,
//! and which layout each destination receives.

use vstd::prelude::*;

use crate::config::{lookup_rules, targets_view, Config, ConfigSpec};
use crate::error::Error;
use crate::mapping::{mappings_view, Mapping, MappingSpec};
use crate::path::{
    clone_bytes, is_prefix_of, path_ext, path_in_list, paths_view, swap_prefix, swapped, with_ext,
    SitePath,
};

verus! {

/// A source page after the rendering stage: its path and its bytes, either
/// rendered through the template engine or read raw when the page is on
/// the template ignore list.
#[derive(Debug)]
pub struct RenderedPage {
    /// The source path the content came from.
    pub source: SitePath,
    /// The page's bytes after rendering.
    pub content: Vec<u8>,
}

/// The abstract value of a [`RenderedPage`].
pub struct RenderedPageSpec {
    /// The source path.
    pub source: Seq<Seq<u8>>,
    /// The rendered bytes.
    pub content: Seq<u8>,
}

impl View for RenderedPage {
    type V = RenderedPageSpec;

    open spec fn view(&self) -> RenderedPageSpec {
        RenderedPageSpec { source: self.source@, content: self.content@ }
    }
}

/// The view of a list of rendered pages.
pub open spec fn pages_view(ps: Seq<RenderedPage>) -> Seq<RenderedPageSpec> {
    Seq::new(ps.len(), |i: int| ps[i]@)
}

/// The mappings one rendered page produces. Its destination is the source
/// path rooted under the output directory instead of the source directory.
/// When the destination is transform-ignored, or the source extension has
/// no configured transforms, the page passes through as one mapping with
/// its content untouched. Otherwise it fans out into one mapping per
/// configured target extension, each carrying that target's transform and
/// its own copy of the content.
pub open spec fn page_mappings(
    source: Seq<Seq<u8>>,
    content: Seq<u8>,
    cfg: ConfigSpec,
) -> Seq<MappingSpec> {
    let dest = swapped(source, cfg.dirs.src, cfg.dirs.out);
    let ext = path_ext(source);
    if ext is Some && lookup_rules(cfg.transforms, ext.unwrap()) is Some
        && !cfg.ignores.transform.contains(dest) {
        let targets = lookup_rules(cfg.transforms, ext.unwrap()).unwrap();
        Seq::new(
            targets.len(),
            |i: int|
                MappingSpec {
                    source,
                    destination: with_ext(dest, targets[i].ext),
                    transform: Some(targets[i].transform),
                    content,
                },
        )
    } else {
        seq![MappingSpec { source, destination: dest, transform: None, content }]
    }
}

/// The mappings of a whole build: those of every page, in page order.
pub open spec fn site_mappings(pages: Seq<RenderedPageSpec>, cfg: ConfigSpec) -> Seq<MappingSpec>
    decreases pages.len(),
{
    if pages.len() == 0 {
        Seq::empty()
    } else {
        site_mappings(pages.drop_last(), cfg) + page_mappings(
            pages.last().source,
            pages.last().content,
            cfg,
        )
    }
}

/// Whether every page lies under the source root, as the mapping stage
/// expects of pages found by walking that root.
pub open spec fn pages_ok(pages: Seq<RenderedPageSpec>, cfg: ConfigSpec) -> bool {
    forall|i: int| 0 <= i < pages.len() ==> is_prefix_of(cfg.dirs.src, #[trigger] pages[i].source)
}

/// The index of the first page that does not lie under the source root.
pub open spec fn first_bad(pages: Seq<RenderedPageSpec>, cfg: ConfigSpec) -> int
    decreases pages.len(),
{
    if pages.len() == 0 {
        0
    } else if !is_prefix_of(cfg.dirs.src, pages[0].source) {
        0
    } else {
        1 + first_bad(pages.skip(1), cfg)
    }
}

/// `first_bad` points at the first failing page.
proof fn lemma_first_bad_at(pages: Seq<RenderedPageSpec>, cfg: ConfigSpec, i: int)
    requires
        0 <= i < pages.len(),
        forall|j: int| 0 <= j < i ==> is_prefix_of(cfg.dirs.src, #[trigger] pages[j].source),
        !is_prefix_of(cfg.dirs.src, pages[i].source),
    ensures
        first_bad(pages, cfg) == i,
    decreases i,
{
    if i > 0 {
        lemma_first_bad_at(pages.skip(1), cfg, i - 1);
    }
}

/// The view of an optional list of layout paths.
pub open spec fn opt_paths_view(o: Option<Vec<SitePath>>) -> Option<Seq<Seq<Seq<u8>>>> {
    match o {
        Some(ls) => Some(paths_view(ls@)),
        None => None,
    }
}

/// One build of a site: the configuration, the source files found under
/// the source root, the layout files found under the layout root (absent
/// when that root does not exist, which disables layouts entirely), and
/// the mappings as the pipeline builds them.
pub struct Site {
    /// The configuration the build runs under.
    pub config: Config,
    /// Every file under the source root.
    pub sources: Vec<SitePath>,
    /// Every file under the layout root, when that root exists.
    pub layouts: Option<Vec<SitePath>>,
    /// The mappings from sources to outputs, once prepared.
    pub mappings: Vec<Mapping>,
}

impl Site {
    /// The view of this site's layout list.
    pub open spec fn layouts_view(&self) -> Option<Seq<Seq<Seq<u8>>>> {
        opt_paths_view(self.layouts)
    }

    /// A site about to be built: no mappings exist yet.
    pub fn new(config: Config, sources: Vec<SitePath>, layouts: Option<Vec<SitePath>>) -> (s: Site)
        ensures
            s.config@ == config@,
            paths_view(s.sources@) == paths_view(sources@),
            s.layouts_view() == opt_paths_view(layouts),
            s.mappings@.len() == 0,
    {
        Site { config, sources, layouts, mappings: Vec::new() }
    }

    /// Whether a source page goes through the template engine, rather than
    /// being read raw off the template ignore list.
    pub fn is_template(&self, source: &SitePath) -> (r: bool)
        ensures
            r == !self.config@.ignores.template.contains(source@),
    {
        !path_in_list(&self.config.ignores.template, source)
    }

    /// Where a static asset is copied to: the asset's path rooted under
    /// the output directory instead of the static directory.
    pub fn static_destination(&self, asset: &SitePath) -> (r: Result<SitePath, Error>)
        ensures
            is_prefix_of(self.config@.dirs.static_dir, asset@) ==> (r matches Ok(d) && d@
                == swapped(asset@, self.config@.dirs.static_dir, self.config@.dirs.out)),
            !is_prefix_of(self.config@.dirs.static_dir, asset@) ==> (r matches Err(e) && (e matches
            Error::StripPath { path, prefix } && path@ == asset@ && prefix@
                == self.config@.dirs.static_dir)),
    {
        swap_prefix(asset, &self.config.dirs.static_dir, &self.config.dirs.out)
    }

    /// Builds the mappings for the rendered pages, in order, appending
    /// them to this site. A page outside the source root stops the build
    /// right there; the pages before it are already mapped.
    pub fn prepare_mappings(&mut self, rendered: &Vec<RenderedPage>) -> (r: Result<(), Error>)
        ensures
            final(self).config == old(self).config,
            final(self).sources == old(self).sources,
            final(self).layouts == old(self).layouts,
            pages_ok(pages_view(rendered@), old(self).config@) ==> r is Ok && mappings_view(
                final(self).mappings@,
            ) == mappings_view(old(self).mappings@) + site_mappings(
                pages_view(rendered@),
                old(self).config@,
            ),
            !pages_ok(pages_view(rendered@), old(self).config@) ==> ({
                let bad = first_bad(pages_view(rendered@), old(self).config@);
                &&& (r matches Err(e) && (e matches Error::StripPath { path, prefix } && path@
                    == pages_view(rendered@)[bad].source && prefix@ == old(self).config@.dirs.src))
                &&& mappings_view(final(self).mappings@) == mappings_view(old(self).mappings@)
                    + site_mappings(pages_view(rendered@).take(bad), old(self).config@)
            }),
    {
        let ghost pages = pages_view(rendered@);
        let ghost cfg = self.config@;
        let ghost base = mappings_view(self.mappings@);
        let mut i: usize = 0;
        proof {
            assert(pages.take(0int) =~= Seq::<RenderedPageSpec>::empty());
        }
        while i < rendered.len()
            invariant
                i <= rendered@.len(),
                pages == pages_view(rendered@),
                pages.len() == rendered@.len(),
                cfg == self.config@,
                base == mappings_view(old(self).mappings@),
                self.config == old(self).config,
                self.sources == old(self).sources,
                self.layouts == old(self).layouts,
                mappings_view(self.mappings@) == base + site_mappings(pages.take(i as int), cfg),
                forall|j: int| 0 <= j < i ==> is_prefix_of(cfg.dirs.src, #[trigger] pages[j].source),
            decreases rendered@.len() - i,
        {
            proof {
                assert(pages[i as int] == rendered@[i as int]@);
            }
            let ghost before = mappings_view(self.mappings@);
            match push_page(&self.config, &mut self.mappings, &rendered[i]) {
                Ok(()) => {},
                Err(e) => {
                    proof {
                        lemma_first_bad_at(pages, cfg, i as int);
                        assert(!pages_ok(pages, cfg));
                    }
                    return Err(e);
                },
            }
            proof {
                assert(pages.take(i + 1).drop_last() =~= pages.take(i as int));
                assert(pages.take(i + 1).last() == pages[i as int]);
                assert(base + site_mappings(pages.take(i as int), cfg) + page_mappings(
                    pages[i as int].source,
                    pages[i as int].content,
                    cfg,
                ) =~= base + site_mappings(pages.take(i + 1), cfg));
            }
            i = i + 1;
        }
        proof {
            assert(pages.take(pages.len() as int) =~= pages);
        }
        Ok(())
    }
}

/// The wildcard file name that stands in for a missing layout: `_` with
/// the destination's extension, or a bare `_` when it has none.
pub open spec fn wildcard_of(l: Seq<Seq<u8>>) -> Seq<u8> {
    match path_ext(l) {
        None => seq![95u8],
        Some(e) => seq![95u8, 46u8] + e,
    }
}

/// The wildcard search over the ancestors of the missing layout `l`: the
/// first ancestor, from level `k` up towards the layout root at level
/// `root_len`, that contains the wildcard file.
pub open spec fn wildcard_search(
    l: Seq<Seq<u8>>,
    layouts: Seq<Seq<Seq<u8>>>,
    root_len: int,
    k: int,
) -> Option<Seq<Seq<u8>>>
    decreases k - root_len + 1,
{
    if k < root_len {
        None
    } else {
        let cand = l.take(k).push(wildcard_of(l));
        if layouts.contains(cand) {
            Some(cand)
        } else {
            wildcard_search(l, layouts, root_len, k - 1)
        }
    }
}

/// The layout a destination receives, if any: none when the destination
/// is layout-ignored or no layout directory exists; the layout at the
/// destination's own path rooted under the layout directory when that
/// file exists; else the nearest enclosing wildcard layout.
pub open spec fn layout_for(
    dest: Seq<Seq<u8>>,
    cfg: ConfigSpec,
    layouts: Option<Seq<Seq<Seq<u8>>>>,
) -> Option<Seq<Seq<u8>>> {
    if cfg.ignores.layout.contains(dest) {
        None
    } else {
        match layouts {
            None => None,
            Some(ls) => {
                let l = swapped(dest, cfg.dirs.out, cfg.dirs.layout);
                if ls.contains(l) {
                    Some(l)
                } else {
                    wildcard_search(l, ls, cfg.dirs.layout.len() as int, l.len() - 1)
                }
            },
        }
    }
}

impl Site {
    /// The layout to wrap a mapping's destination in, if one applies:
    /// the exact match under the layout root when it exists, else the
    /// nearest enclosing wildcard layout. A destination outside the output
    /// root cannot be rewritten and is surfaced as an error.
    pub fn find_layout(&self, mapping: &Mapping) -> (r: Result<Option<SitePath>, Error>)
        ensures
            self.config@.ignores.layout.contains(mapping@.destination) ==> (r matches Ok(o) && o
                is None),
            !self.config@.ignores.layout.contains(mapping@.destination) && self.layouts is None
                ==> (r matches Ok(o) && o is None),
            !self.config@.ignores.layout.contains(mapping@.destination) && self.layouts is Some
                && !is_prefix_of(self.config@.dirs.out, mapping@.destination) ==> (r matches Err(e)
                && (e matches Error::StripPath { path, prefix } && path@ == mapping@.destination
                && prefix@ == self.config@.dirs.out)),
            !self.config@.ignores.layout.contains(mapping@.destination) && self.layouts is Some
                && is_prefix_of(self.config@.dirs.out, mapping@.destination) ==> (r matches Ok(o)
                && (match o {
                Some(l) => layout_for(mapping@.destination, self.config@, self.layouts_view())
                    == Some(l@),
                None => layout_for(mapping@.destination, self.config@, self.layouts_view())
                    is None,
            })),
    {
        if path_in_list(&self.config.ignores.layout, &mapping.destination) {
            return Ok(None);
        }
        let ls = match &self.layouts {
            None => {
                return Ok(None);
            },
            Some(ls) => ls,
        };
        let ghost cfg = self.config@;
        let ghost lsv = paths_view(ls@);
        let l = match swap_prefix(&mapping.destination, &self.config.dirs.out, &self.config.dirs.layout) {
            Ok(l) => l,
            Err(e) => {
                return Err(e);
            },
        };
        if path_in_list(ls, &l) {
            return Ok(Some(l));
        }
        // Build the wildcard file name `_` or `_.<ext>`.
        let mut wc: Vec<u8> = Vec::new();
        wc.push(95u8);
        let ext = l.extension();
        match &ext {
            None => {
                proof {
                    assert(wc@ =~= wildcard_of(l@));
                }
            },
            Some(e) => {
                wc.push(46u8);
                let mut j: usize = 0;
                proof {
                    assert(wc@ =~= seq![95u8, 46u8] + e@.take(0int));
                }
                while j < e.len()
                    invariant
                        j <= e@.len(),
                        wc@ == seq![95u8, 46u8] + e@.take(j as int),
                    decreases e@.len() - j,
                {
                    wc.push(e[j]);
                    proof {
                        assert(wc@ =~= seq![95u8, 46u8] + e@.take(j + 1));
                    }
                    j = j + 1;
                }
                proof {
                    assert(e@.take(e@.len() as int) =~= e@);
                    assert(wc@ =~= wildcard_of(l@));
                }
            },
        }
        let root_len = self.config.dirs.layout.seg_count();
        let mut k = l.seg_count();
        proof {
            assert(l@.len() >= cfg.dirs.layout.len());
        }
        let ghost dest = mapping@.destination;
        while k > root_len
            invariant
                root_len == cfg.dirs.layout.len(),
                root_len <= k <= l@.len(),
                cfg == self.config@,
                lsv == paths_view(ls@),
                self.layouts_view() == Some(lsv),
                dest == mapping@.destination,
                !cfg.ignores.layout.contains(dest),
                is_prefix_of(cfg.dirs.out, dest),
                l@ == swapped(dest, cfg.dirs.out, cfg.dirs.layout),
                !lsv.contains(l@),
                wc@ == wildcard_of(l@),
                wildcard_search(l@, lsv, root_len as int, l@.len() - 1) == wildcard_search(
                    l@,
                    lsv,
                    root_len as int,
                    k - 1,
                ),
            decreases k,
        {
            k = k - 1;
            let cand = l.take_prefix(k).join_seg(clone_bytes(&wc));
            if path_in_list(ls, &cand) {
                proof {
                    assert(cand@ == l@.take(k as int).push(wildcard_of(l@)));
                    assert(wildcard_search(l@, lsv, root_len as int, k as int) == Some(cand@));
                    assert(layout_for(dest, cfg, Some(lsv)) == Some(cand@));
                }
                return Ok(Some(cand));
            }
            proof {
                assert(cand@ == l@.take(k as int).push(wildcard_of(l@)));
                assert(wildcard_search(l@, lsv, root_len as int, k as int) == wildcard_search(
                    l@,
                    lsv,
                    root_len as int,
                    k as int - 1,
                ));
            }
        }
        proof {
            assert(wildcard_search(l@, lsv, root_len as int, k - 1) is None);
            assert(layout_for(dest, cfg, Some(lsv)) is None);
        }
        Ok(None)
    }
}

/// Fan-out: a source page whose extension has configured targets, and
/// whose destination is not transform-ignored, produces exactly one
/// mapping per target extension, each with the destination's extension
/// replaced by that target's, carrying that target's transform and its
/// own copy of the rendered content.
pub proof fn lemma_mapping_fan_out(source: Seq<Seq<u8>>, content: Seq<u8>, cfg: ConfigSpec)
    requires
        path_ext(source) is Some,
        lookup_rules(cfg.transforms, path_ext(source).unwrap()) is Some,
        !cfg.ignores.transform.contains(swapped(source, cfg.dirs.src, cfg.dirs.out)),
    ensures
        ({
            let dest = swapped(source, cfg.dirs.src, cfg.dirs.out);
            let targets = lookup_rules(cfg.transforms, path_ext(source).unwrap()).unwrap();
            let ms = page_mappings(source, content, cfg);
            &&& ms.len() == targets.len()
            &&& forall|i: int|
                0 <= i < targets.len() ==> ms[i] == (MappingSpec {
                    source,
                    destination: with_ext(dest, targets[i].ext),
                    transform: Some(targets[i].transform),
                    content,
                })
        }),
{
}

/// A destination on the transform ignore list, or a source with no
/// configured transforms, passes through: one mapping, no transform, the
/// content untouched and the extension kept.
pub proof fn lemma_pass_through(source: Seq<Seq<u8>>, content: Seq<u8>, cfg: ConfigSpec)
    requires
        cfg.ignores.transform.contains(swapped(source, cfg.dirs.src, cfg.dirs.out)) || path_ext(
            source,
        ) is None || lookup_rules(cfg.transforms, path_ext(source).unwrap()) is None,
    ensures
        page_mappings(source, content, cfg) == seq![
            MappingSpec {
                source,
                destination: swapped(source, cfg.dirs.src, cfg.dirs.out),
                transform: None,
                content,
            },
        ],
{
}

/// The transform stage reads only the transform ignore list: two
/// configurations that agree on the roots, the transform table and the
/// transform ignores map every page alike, whatever their layout ignores
/// say. Together with [`lemma_layout_ignore_independent`], the two ignore
/// lists act independently.
pub proof fn lemma_transform_ignore_independent(
    source: Seq<Seq<u8>>,
    content: Seq<u8>,
    cfg1: ConfigSpec,
    cfg2: ConfigSpec,
)
    requires
        cfg1.dirs == cfg2.dirs,
        cfg1.transforms == cfg2.transforms,
        cfg1.ignores.transform == cfg2.ignores.transform,
    ensures
        page_mappings(source, content, cfg1) == page_mappings(source, content, cfg2),
{
}

/// The layout stage reads only the layout ignore list: a layout-ignored
/// destination gets no layout, and two configurations that agree on the
/// roots and the layout ignores resolve every destination alike, whatever
/// their transform ignores and transform tables say.
pub proof fn lemma_layout_ignore_independent(
    dest: Seq<Seq<u8>>,
    cfg1: ConfigSpec,
    cfg2: ConfigSpec,
    layouts: Option<Seq<Seq<Seq<u8>>>>,
)
    requires
        cfg1.dirs == cfg2.dirs,
        cfg1.ignores.layout == cfg2.ignores.layout,
    ensures
        layout_for(dest, cfg1, layouts) == layout_for(dest, cfg2, layouts),
        cfg1.ignores.layout.contains(dest) ==> layout_for(dest, cfg1, layouts) is None,
{
}

/// Without a layout directory there are no layouts: every destination is
/// written as-is, and nothing fails on that account.
pub proof fn lemma_missing_layout_dir(dest: Seq<Seq<u8>>, cfg: ConfigSpec)
    ensures
        layout_for(dest, cfg, None) is None,
{
}

/// The nearest enclosing wildcard layout wins: when a wildcard file
/// exists at level `j` and at no level between `j` and `k`, the search
/// from level `k` settles on the one at `j`.
pub proof fn lemma_nearest_wildcard_wins(
    l: Seq<Seq<u8>>,
    layouts: Seq<Seq<Seq<u8>>>,
    root_len: int,
    k: int,
    j: int,
)
    requires
        root_len <= j <= k,
        layouts.contains(l.take(j).push(wildcard_of(l))),
        forall|j2: int| j < j2 <= k ==> !layouts.contains(#[trigger] l.take(j2).push(wildcard_of(l))),
    ensures
        wildcard_search(l, layouts, root_len, k) == Some(l.take(j).push(wildcard_of(l))),
    decreases k - j,
{
    if k > j {
        lemma_nearest_wildcard_wins(l, layouts, root_len, k - 1, j);
    }
}

/// The pipeline is pure: equal rendered pages, configuration and layout
/// lists give equal mappings and equal layout choices. Wherever no
/// external command intervenes, running a build twice over unchanged
/// sources therefore writes identical bytes.
pub proof fn lemma_pipeline_deterministic(
    pages1: Seq<RenderedPageSpec>,
    pages2: Seq<RenderedPageSpec>,
    cfg1: ConfigSpec,
    cfg2: ConfigSpec,
    dest: Seq<Seq<u8>>,
    layouts1: Option<Seq<Seq<Seq<u8>>>>,
    layouts2: Option<Seq<Seq<Seq<u8>>>>,
)
    requires
        pages1 == pages2,
        cfg1 == cfg2,
        layouts1 == layouts2,
    ensures
        site_mappings(pages1, cfg1) == site_mappings(pages2, cfg2),
        layout_for(dest, cfg1, layouts1) == layout_for(dest, cfg2, layouts2),
{
}

/// Appends the mappings of one rendered page, or reports the page as
/// lying outside the source root.
fn push_page(config: &Config, mappings: &mut Vec<Mapping>, page: &RenderedPage) -> (r: Result<
    (),
    Error,
>)
    ensures
        is_prefix_of(config@.dirs.src, page@.source) ==> r is Ok && mappings_view(final(mappings)@)
            == mappings_view(old(mappings)@) + page_mappings(
            page@.source,
            page@.content,
            config@,
        ),
        !is_prefix_of(config@.dirs.src, page@.source) ==> (r matches Err(e) && (e matches
        Error::StripPath { path, prefix } && path@ == page@.source && prefix@ == config@.dirs.src))
            && final(mappings)@ == old(mappings)@,
{
    let dest = match swap_prefix(&page.source, &config.dirs.src, &config.dirs.out) {
        Ok(d) => d,
        Err(e) => {
            return Err(e);
        },
    };
    let ghost cfg = config@;
    let ghost dest_spec = swapped(page@.source, cfg.dirs.src, cfg.dirs.out);
    let ignored = path_in_list(&config.ignores.transform, &dest);
    if !ignored {
        if let Some(ext) = page.source.extension() {
            if let Some(targets) = config.lookup_targets(&ext) {
                let ghost targets_spec = lookup_rules(cfg.transforms, path_ext(page@.source).unwrap()).unwrap();
                let ghost base = mappings_view(mappings@);
                proof {
                    assert(targets_spec == targets_view(targets@));
                    assert(targets_spec.len() == targets@.len());
                }
                let mut j: usize = 0;
                while j < targets.len()
                    invariant
                        j <= targets@.len(),
                        targets_spec == targets_view(targets@),
                        targets_spec.len() == targets@.len(),
                        dest@ == dest_spec,
                        dest_spec == swapped(page@.source, cfg.dirs.src, cfg.dirs.out),
                        mappings_view(mappings@) == base + page_mappings(
                            page@.source,
                            page@.content,
                            cfg,
                        ).take(j as int),
                        path_ext(page@.source) is Some,
                        lookup_rules(cfg.transforms, path_ext(page@.source).unwrap()) == Some(
                            targets_spec,
                        ),
                        !cfg.ignores.transform.contains(dest_spec),
                    decreases targets@.len() - j,
                {
                    proof {
                        assert(targets_spec[j as int] == targets@[j as int]@);
                    }
                    let ghost prev = mappings_view(mappings@);
                    let t = &targets[j];
                    mappings.push(
                        Mapping {
                            source: page.source.duplicate(),
                            destination: dest.with_extension(&t.ext),
                            transform: Some(t.transform.duplicate()),
                            content: clone_bytes(&page.content),
                        },
                    );
                    proof {
                        let full = page_mappings(page@.source, page@.content, cfg);
                        assert(mappings_view(mappings@) =~= prev.push(full[j as int]));
                        assert(mappings_view(mappings@) =~= base + full.take(j + 1));
                    }
                    j = j + 1;
                }
                proof {
                    let full = page_mappings(page@.source, page@.content, cfg);
                    assert(full.take(full.len() as int) =~= full);
                }
                return Ok(());
            }
        }
    }
    let ghost base = mappings_view(mappings@);
    push_plain(mappings, page, dest);
    proof {
        let full = page_mappings(page@.source, page@.content, cfg);
        assert(full =~= seq![
            MappingSpec {
                source: page@.source,
                destination: dest_spec,
                transform: None,
                content: page@.content,
            },
        ]);
        assert(mappings_view(mappings@) =~= base + full);
    }
    Ok(())
}

/// Appends the one pass-through mapping of a page with no transform.
fn push_plain(mappings: &mut Vec<Mapping>, page: &RenderedPage, dest: SitePath)
    ensures
        mappings_view(final(mappings)@) == mappings_view(old(mappings)@).push(
            MappingSpec {
                source: page@.source,
                destination: dest@,
                transform: None,
                content: page@.content,
            },
        ),
{
    let ghost prev = mappings_view(mappings@);
    let ghost dv = dest@;
    mappings.push(
        Mapping {
            source: page.source.duplicate(),
            destination: dest,
            transform: None,
            content: clone_bytes(&page.content),
        },
    );
    proof {
        assert(mappings_view(mappings@) =~= prev.push(
            MappingSpec {
                source: page@.source,
                destination: dv,
                transform: None,
                content: page@.content,
            },
        ));
    }
}

} // verus!
