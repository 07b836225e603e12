//! One unit of output: a source page bound to a destination file.

use vstd::prelude::*;

use crate::error::Error;
use crate::path::{clone_bytes, decode_utf8, utf8_decode, SitePath};
use crate::transform::{cmds_view, commands_of, Transform, TransformRun, TransformSpec};

verus! {

/// Maps one rendered source page to one destination file, carrying the
/// content on its way to disk. The content starts as the rendered page
/// bytes and is replaced only by the transform runner's result and by the
/// layout's rendering.
#[derive(Debug, PartialEq, Eq)]
pub struct Mapping {
    /// The source file the page came from, relative to the project root.
    pub source: SitePath,
    /// The file the page will be written to, relative to the project root.
    pub destination: SitePath,
    /// The transform to apply to the page, when one is configured.
    pub transform: Option<Transform>,
    /// The bytes of the page in its current stage.
    pub content: Vec<u8>,
}

/// The abstract value of a [`Mapping`].
pub struct MappingSpec {
    /// The source path.
    pub source: Seq<Seq<u8>>,
    /// The destination path.
    pub destination: Seq<Seq<u8>>,
    /// The transform, if any applies.
    pub transform: Option<TransformSpec>,
    /// The content bytes.
    pub content: Seq<u8>,
}

impl View for Mapping {
    type V = MappingSpec;

    open spec fn view(&self) -> MappingSpec {
        MappingSpec {
            source: self.source@,
            destination: self.destination@,
            transform: match self.transform {
                Some(t) => Some(t@),
                None => None,
            },
            content: self.content@,
        }
    }
}

/// The view of a list of mappings.
pub open spec fn mappings_view(ms: Seq<Mapping>) -> Seq<MappingSpec> {
    Seq::new(ms.len(), |i: int| ms[i]@)
}

impl Mapping {
    /// Begins applying this mapping's transform to its content: a run over
    /// a fresh copy of the content, or nothing when no transform applies.
    pub fn transform(&self) -> (r: Option<TransformRun>)
        ensures
            match r {
                Some(run) => {
                    &&& self@.transform is Some
                    &&& run.wf()
                    &&& cmds_view(run.commands@) == commands_of(self@.transform->0)
                    &&& run.index == 0
                    &&& run.input@ == self@.content
                    &&& run.content@ == self@.content
                },
                None => self@.transform is None,
            },
    {
        match &self.transform {
            Some(t) => Some(TransformRun::new(t, clone_bytes(&self.content))),
            None => None,
        }
    }

    /// Installs the outcome of a finished transform run as this mapping's
    /// content; everything else stays as it was.
    pub fn complete(&mut self, run: TransformRun)
        requires
            run.index >= run.commands@.len(),
        ensures
            final(self)@.content == run.content@,
            final(self)@.source == old(self)@.source,
            final(self)@.destination == old(self)@.destination,
            final(self)@.transform == old(self)@.transform,
    {
        self.content = run.into_content();
    }

    /// The content decoded as text, as a layout's rendering context needs
    /// it. Content that is not valid UTF-8 cannot meet a layout and is
    /// reported against this mapping's destination.
    pub fn layout_text(&self) -> (r: Result<String, Error>)
        ensures
            match r {
                Ok(s) => utf8_decode(self@.content) == Some(s@),
                Err(e) => utf8_decode(self@.content) is None && (e matches Error::FromUtf8 {
                    path,
                } && path@ == self@.destination),
            },
    {
        match decode_utf8(clone_bytes(&self.content)) {
            Some(s) => Ok(s),
            None => Err(Error::FromUtf8 { path: self.destination.duplicate() }),
        }
    }
}

} // verus!
