//! The configuration a build runs under.
//!
//! The configuration is plain data: the directory roots, the three ignore
//! lists, and the transform table mapping a source extension to one
//! transform per target extension. Loading it from a file happens outside
//! the library; the pipeline only ever reads it.

use vstd::prelude::*;

use crate::path::{paths_view, SitePath};
use crate::transform::{Transform, TransformSpec};

verus! {

/// The directory roots of a project.
#[derive(Debug)]
pub struct Dirs {
    /// Holds the template sources to be rendered, transformed and laid out.
    pub src: SitePath,
    /// Where generated content goes.
    pub out: SitePath,
    /// Files here are copied as-is into the output directory.
    pub static_dir: SitePath,
    /// Holds the layout files.
    pub layout: SitePath,
}

/// The abstract value of [`Dirs`].
pub struct DirsSpec {
    /// The source root.
    pub src: Seq<Seq<u8>>,
    /// The output root.
    pub out: Seq<Seq<u8>>,
    /// The static-asset root.
    pub static_dir: Seq<Seq<u8>>,
    /// The layout root.
    pub layout: Seq<Seq<u8>>,
}

impl View for Dirs {
    type V = DirsSpec;

    open spec fn view(&self) -> DirsSpec {
        DirsSpec {
            src: self.src@,
            out: self.out@,
            static_dir: self.static_dir@,
            layout: self.layout@,
        }
    }
}

/// The default source root, `src`.
pub open spec fn default_src_spec() -> Seq<Seq<u8>> {
    seq![seq![115u8, 114u8, 99u8]]
}

/// The default output root, `out`.
pub open spec fn default_out_spec() -> Seq<Seq<u8>> {
    seq![seq![111u8, 117u8, 116u8]]
}

/// The default static-asset root, `static`.
pub open spec fn default_static_spec() -> Seq<Seq<u8>> {
    seq![seq![115u8, 116u8, 97u8, 116u8, 105u8, 99u8]]
}

/// The default layout root, `layout`.
pub open spec fn default_layout_spec() -> Seq<Seq<u8>> {
    seq![seq![108u8, 97u8, 121u8, 111u8, 117u8, 116u8]]
}

impl Dirs {
    /// Returns the default `src/` directory.
    pub fn default_src() -> (r: SitePath)
        ensures
            r@ == default_src_spec(),
    {
        let mut name: Vec<u8> = Vec::new();
        name.push(115u8);
        name.push(114u8);
        name.push(99u8);
        proof {
            assert(name@ =~= seq![115u8, 114u8, 99u8]);
        }
        let r = one_seg(name);
        proof {
            assert(r@ =~= default_src_spec());
        }
        r
    }

    /// Returns the default `out/` directory.
    pub fn default_out() -> (r: SitePath)
        ensures
            r@ == default_out_spec(),
    {
        let mut name: Vec<u8> = Vec::new();
        name.push(111u8);
        name.push(117u8);
        name.push(116u8);
        proof {
            assert(name@ =~= seq![111u8, 117u8, 116u8]);
        }
        let r = one_seg(name);
        proof {
            assert(r@ =~= default_out_spec());
        }
        r
    }

    /// Returns the default `static/` directory.
    pub fn default_static() -> (r: SitePath)
        ensures
            r@ == default_static_spec(),
    {
        let mut name: Vec<u8> = Vec::new();
        name.push(115u8);
        name.push(116u8);
        name.push(97u8);
        name.push(116u8);
        name.push(105u8);
        name.push(99u8);
        proof {
            assert(name@ =~= seq![115u8, 116u8, 97u8, 116u8, 105u8, 99u8]);
        }
        let r = one_seg(name);
        proof {
            assert(r@ =~= default_static_spec());
        }
        r
    }

    /// Returns the default `layout/` directory.
    pub fn default_layout() -> (r: SitePath)
        ensures
            r@ == default_layout_spec(),
    {
        let mut name: Vec<u8> = Vec::new();
        name.push(108u8);
        name.push(97u8);
        name.push(121u8);
        name.push(111u8);
        name.push(117u8);
        name.push(116u8);
        proof {
            assert(name@ =~= seq![108u8, 97u8, 121u8, 111u8, 117u8, 116u8]);
        }
        let r = one_seg(name);
        proof {
            assert(r@ =~= default_layout_spec());
        }
        r
    }
}

/// A path of one component.
fn one_seg(name: Vec<u8>) -> (r: SitePath)
    ensures
        r@ == seq![name@],
{
    let mut segs: Vec<Vec<u8>> = Vec::new();
    segs.push(name);
    let r = SitePath::from_segs(segs);
    proof {
        assert(r@ =~= seq![r@[0]]);
    }
    r
}

impl core::default::Default for Dirs {
    /// The conventional roots: `src`, `out`, `static` and `layout`.
    fn default() -> (r: Dirs)
        ensures
            r@.src == default_src_spec(),
            r@.out == default_out_spec(),
            r@.static_dir == default_static_spec(),
            r@.layout == default_layout_spec(),
    {
        Dirs {
            src: Dirs::default_src(),
            out: Dirs::default_out(),
            static_dir: Dirs::default_static(),
            layout: Dirs::default_layout(),
        }
    }
}

/// The paths exempted from each step of the pipeline. The three lists are
/// independent: a page may skip transforms yet still receive a layout, and
/// the other way round.
#[derive(Debug)]
pub struct Ignores {
    /// Source pages never rendered through the template engine; their raw
    /// bytes flow on, so they need not be valid UTF-8.
    pub template: Vec<SitePath>,
    /// Destinations never transformed; their extension stays as it is.
    pub transform: Vec<SitePath>,
    /// Destinations written without layout wrapping.
    pub layout: Vec<SitePath>,
}

/// The abstract value of [`Ignores`].
pub struct IgnoresSpec {
    /// Sources exempt from template rendering.
    pub template: Seq<Seq<Seq<u8>>>,
    /// Destinations exempt from transforms.
    pub transform: Seq<Seq<Seq<u8>>>,
    /// Destinations exempt from layouts.
    pub layout: Seq<Seq<Seq<u8>>>,
}

impl View for Ignores {
    type V = IgnoresSpec;

    open spec fn view(&self) -> IgnoresSpec {
        IgnoresSpec {
            template: paths_view(self.template@),
            transform: paths_view(self.transform@),
            layout: paths_view(self.layout@),
        }
    }
}

impl core::default::Default for Ignores {
    /// Nothing is ignored.
    fn default() -> (r: Ignores)
        ensures
            r@.template == Seq::<Seq<Seq<u8>>>::empty(),
            r@.transform == Seq::<Seq<Seq<u8>>>::empty(),
            r@.layout == Seq::<Seq<Seq<u8>>>::empty(),
    {
        let r = Ignores { template: Vec::new(), transform: Vec::new(), layout: Vec::new() };
        proof {
            assert(r@.template =~= Seq::<Seq<Seq<u8>>>::empty());
            assert(r@.transform =~= Seq::<Seq<Seq<u8>>>::empty());
            assert(r@.layout =~= Seq::<Seq<Seq<u8>>>::empty());
        }
        r
    }
}

/// One output of a source extension: the target extension and the
/// transform that produces it.
#[derive(Debug)]
pub struct TargetRule {
    /// The extension of the destination file.
    pub ext: Vec<u8>,
    /// The transform that converts content into that format.
    pub transform: Transform,
}

/// The abstract value of [`TargetRule`].
pub struct TargetRuleSpec {
    /// The target extension.
    pub ext: Seq<u8>,
    /// The transform for it.
    pub transform: TransformSpec,
}

impl View for TargetRule {
    type V = TargetRuleSpec;

    open spec fn view(&self) -> TargetRuleSpec {
        TargetRuleSpec { ext: self.ext@, transform: self.transform@ }
    }
}

/// The view of a list of target rules.
pub open spec fn targets_view(ts: Seq<TargetRule>) -> Seq<TargetRuleSpec> {
    Seq::new(ts.len(), |i: int| ts[i]@)
}

/// All the outputs configured for one source extension.
#[derive(Debug)]
pub struct ExtRule {
    /// The extension of the source file.
    pub ext: Vec<u8>,
    /// One entry per target extension, in configuration order.
    pub targets: Vec<TargetRule>,
}

/// The abstract value of [`ExtRule`].
pub struct ExtRuleSpec {
    /// The source extension.
    pub ext: Seq<u8>,
    /// The configured outputs, in order.
    pub targets: Seq<TargetRuleSpec>,
}

impl View for ExtRule {
    type V = ExtRuleSpec;

    open spec fn view(&self) -> ExtRuleSpec {
        ExtRuleSpec { ext: self.ext@, targets: targets_view(self.targets@) }
    }
}

/// The view of the transform table.
pub open spec fn rules_view(rs: Seq<ExtRule>) -> Seq<ExtRuleSpec> {
    Seq::new(rs.len(), |i: int| rs[i]@)
}

/// The targets configured for `ext`: those of the first table entry with
/// that source extension, if any.
pub open spec fn lookup_rules(rs: Seq<ExtRuleSpec>, ext: Seq<u8>) -> Option<Seq<TargetRuleSpec>>
    decreases rs.len(),
{
    if rs.len() == 0 {
        None
    } else if rs[0].ext == ext {
        Some(rs[0].targets)
    } else {
        lookup_rules(rs.skip(1), ext)
    }
}

/// The configuration of a project.
#[derive(Debug)]
pub struct Config {
    /// The directory roots.
    pub dirs: Dirs,
    /// The pages exempted from each pipeline step.
    pub ignores: Ignores,
    /// The transform table: per source extension, one transform per target
    /// extension.
    pub transforms: Vec<ExtRule>,
}

/// The abstract value of [`Config`].
pub struct ConfigSpec {
    /// The directory roots.
    pub dirs: DirsSpec,
    /// The ignore lists.
    pub ignores: IgnoresSpec,
    /// The transform table.
    pub transforms: Seq<ExtRuleSpec>,
}

impl View for Config {
    type V = ConfigSpec;

    open spec fn view(&self) -> ConfigSpec {
        ConfigSpec { dirs: self.dirs@, ignores: self.ignores@, transforms: rules_view(self.transforms@) }
    }
}

impl core::default::Default for Config {
    /// The conventional roots, with nothing ignored and no transforms.
    fn default() -> (r: Config)
        ensures
            r@.dirs.src == default_src_spec(),
            r@.dirs.out == default_out_spec(),
            r@.dirs.static_dir == default_static_spec(),
            r@.dirs.layout == default_layout_spec(),
            r@.ignores.template == Seq::<Seq<Seq<u8>>>::empty(),
            r@.ignores.transform == Seq::<Seq<Seq<u8>>>::empty(),
            r@.ignores.layout == Seq::<Seq<Seq<u8>>>::empty(),
            r@.transforms == Seq::<ExtRuleSpec>::empty(),
    {
        let r = Config {
            dirs: Dirs::default(),
            ignores: Ignores::default(),
            transforms: Vec::new(),
        };
        proof {
            assert(r@.transforms =~= Seq::<ExtRuleSpec>::empty());
        }
        r
    }
}

impl Config {
    /// The target rules configured for the source extension `ext`, if any.
    pub fn lookup_targets<'a>(&'a self, ext: &Vec<u8>) -> (r: Option<&'a Vec<TargetRule>>)
        ensures
            match r {
                Some(ts) => lookup_rules(self@.transforms, ext@) == Some(targets_view(ts@)),
                None => lookup_rules(self@.transforms, ext@) is None,
            },
    {
        let mut i: usize = 0;
        proof {
            assert(self@.transforms.skip(0) =~= self@.transforms);
        }
        while i < self.transforms.len()
            invariant
                i <= self.transforms@.len(),
                self@.transforms.len() == self.transforms@.len(),
                lookup_rules(self@.transforms, ext@) == lookup_rules(
                    self@.transforms.skip(i as int),
                    ext@,
                ),
            decreases self.transforms@.len() - i,
        {
            proof {
                assert(self@.transforms[i as int] == self.transforms@[i as int]@);
                assert(self@.transforms.skip(i as int)[0] == self@.transforms[i as int]);
            }
            if crate::path::bytes_eq(&self.transforms[i].ext, ext) {
                return Some(&self.transforms[i].targets);
            }
            proof {
                assert(self@.transforms.skip(i as int).skip(1) =~= self@.transforms.skip(i + 1));
            }
            i = i + 1;
        }
        proof {
            assert(self@.transforms.skip(i as int).len() == 0);
        }
        None
    }
}

} // verus!
