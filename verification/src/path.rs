//! Paths as sequences of byte segments.
//!
//! Filesystem paths are modeled as their components, each component a plain
//! byte string, so that sources that are not valid UTF-8 can still flow
//! through the pipeline. All path rewriting of the pipeline is defined here.

use vstd::prelude::*;

use crate::error::Error;

verus! {

/// What `String::from_utf8` yields for the given bytes: the decoded
/// characters when the bytes are valid UTF-8, and nothing otherwise.
pub uninterp spec fn utf8_decode(bytes: Seq<u8>) -> Option<Seq<char>>;

/// The view of a run of components: each byte vector abstracted to its bytes.
pub open spec fn segs_view(segs: Seq<Vec<u8>>) -> Seq<Seq<u8>> {
    Seq::new(segs.len(), |i: int| segs[i]@)
}

/// A path, relative to the project root, split into its components.
///
/// `src/blog/post.md` is held as the segments `src`, `blog`, `post.md`.
#[derive(Debug, PartialEq, Eq)]
pub struct SitePath {
    /// The components of the path, in order, without separators.
    pub segs: Vec<Vec<u8>>,
}

impl View for SitePath {
    type V = Seq<Seq<u8>>;

    open spec fn view(&self) -> Seq<Seq<u8>> {
        segs_view(self.segs@)
    }
}

impl DeepView for SitePath {
    type V = Seq<Seq<u8>>;

    open spec fn deep_view(&self) -> Seq<Seq<u8>> {
        self.view()
    }
}

/// Whether `pre` is a leading run of the segments of `p`.
pub open spec fn is_prefix_of(pre: Seq<Seq<u8>>, p: Seq<Seq<u8>>) -> bool {
    pre.len() <= p.len() && p.take(pre.len() as int) == pre
}

/// The path `p` with its leading prefix `from` replaced by `to`.
/// Meaningful when `is_prefix_of(from, p)` holds.
pub open spec fn swapped(p: Seq<Seq<u8>>, from: Seq<Seq<u8>>, to: Seq<Seq<u8>>) -> Seq<Seq<u8>> {
    to + p.skip(from.len() as int)
}

impl SitePath {
    /// Builds a path from its components.
    pub fn from_segs(segs: Vec<Vec<u8>>) -> (r: SitePath)
        ensures
            r@ == segs_view(segs@),
    {
        SitePath { segs }
    }

    /// The number of components.
    pub fn seg_count(&self) -> (r: usize)
        ensures
            r == self@.len(),
    {
        self.segs.len()
    }

    /// A fresh path with the same components.
    pub fn duplicate(&self) -> (r: SitePath)
        ensures
            r@ == self@,
    {
        let mut segs: Vec<Vec<u8>> = Vec::new();
        let mut i: usize = 0;
        while i < self.segs.len()
            invariant
                i <= self.segs.len(),
                segs_view(segs@) == self@.take(i as int),
            decreases self.segs.len() - i,
        {
            let ghost prev = segs@;
            segs.push(clone_bytes(&self.segs[i]));
            proof {
                assert(self@.len() == self.segs@.len());
                assert(segs_view(prev).len() == prev.len());
                assert(self@.take(i as int).len() == i);
                assert(prev.len() == i);
                assert forall|j: int| 0 <= j < segs@.len() implies segs_view(segs@)[j] == self@.take(
                    i + 1,
                )[j] by {
                    if j < i {
                        assert(segs_view(prev)[j] == self@.take(i as int)[j]);
                    } else {
                        assert(j == i);
                        assert(self@[j] == self.segs@[j]@);
                    }
                }
                assert(segs_view(segs@) =~= self@.take(i + 1));
            }
            i = i + 1;
        }
        proof {
            assert(self@.take(self.segs.len() as int) =~= self@);
        }
        SitePath { segs }
    }

    /// Whether this path and `other` have equal components.
    pub fn path_eq(&self, other: &SitePath) -> (r: bool)
        ensures
            r == (self@ == other@),
    {
        proof {
            assert(self@.len() == self.segs@.len());
            assert(other@.len() == other.segs@.len());
        }
        if self.segs.len() != other.segs.len() {
            return false;
        }
        let mut i: usize = 0;
        while i < self.segs.len()
            invariant
                i <= self.segs.len(),
                self.segs.len() == other.segs.len(),
                forall|j: int| 0 <= j < i ==> self@[j] == other@[j],
            decreases self.segs.len() - i,
        {
            proof {
                assert(self@[i as int] == self.segs@[i as int]@);
                assert(other@[i as int] == other.segs@[i as int]@);
            }
            if !bytes_eq(&self.segs[i], &other.segs[i]) {
                return false;
            }
            i = i + 1;
        }
        proof {
            assert(self@ =~= other@);
        }
        true
    }

    /// Whether this path starts with the components of `prefix`.
    pub fn starts_with(&self, prefix: &SitePath) -> (r: bool)
        ensures
            r == is_prefix_of(prefix@, self@),
    {
        proof {
            assert(self@.len() == self.segs@.len());
            assert(prefix@.len() == prefix.segs@.len());
        }
        if prefix.segs.len() > self.segs.len() {
            return false;
        }
        let mut i: usize = 0;
        while i < prefix.segs.len()
            invariant
                i <= prefix.segs.len(),
                prefix.segs.len() <= self.segs.len(),
                forall|j: int| 0 <= j < i ==> self@[j] == prefix@[j],
            decreases prefix.segs.len() - i,
        {
            proof {
                assert(self@[i as int] == self.segs@[i as int]@);
                assert(prefix@[i as int] == prefix.segs@[i as int]@);
            }
            if !bytes_eq(&self.segs[i], &prefix.segs[i]) {
                proof {
                    assert(self@.take(prefix@.len() as int)[i as int] == self@[i as int]);
                }
                return false;
            }
            i = i + 1;
        }
        proof {
            assert(self@.take(prefix@.len() as int) =~= prefix@);
        }
        true
    }
}

/// The position of the last `.` in a file name, if any.
pub open spec fn rfind_dot(name: Seq<u8>) -> Option<int>
    decreases name.len(),
{
    if name.len() == 0 {
        None
    } else if name.last() == 46u8 {
        Some(name.len() - 1)
    } else {
        rfind_dot(name.drop_last())
    }
}

/// The extension of a file name: the part after the last `.`, unless the
/// only `.` leads the name (a hidden file has no extension).
pub open spec fn name_ext(name: Seq<u8>) -> Option<Seq<u8>> {
    match rfind_dot(name) {
        None => None,
        Some(i) => if i == 0 {
            None
        } else {
            Some(name.skip(i + 1))
        },
    }
}

/// The extension of a path: the extension of its last component.
pub open spec fn path_ext(p: Seq<Seq<u8>>) -> Option<Seq<u8>> {
    if p.len() == 0 {
        None
    } else {
        name_ext(p.last())
    }
}

/// A file name with its extension replaced by `e` (appended when the name
/// has none, and the old extension dropped when `e` is empty).
pub open spec fn set_name_ext(name: Seq<u8>, e: Seq<u8>) -> Seq<u8> {
    let stem = match rfind_dot(name) {
        None => name,
        Some(i) => if i == 0 {
            name
        } else {
            name.take(i)
        },
    };
    if e.len() == 0 {
        stem
    } else {
        stem + seq![46u8] + e
    }
}

/// A path with the extension of its last component replaced by `e`.
/// An empty path is left unchanged.
pub open spec fn with_ext(p: Seq<Seq<u8>>, e: Seq<u8>) -> Seq<Seq<u8>> {
    if p.len() == 0 {
        p
    } else {
        p.update(p.len() - 1, set_name_ext(p.last(), e))
    }
}

/// The view of a list of paths.
pub open spec fn paths_view(l: Seq<SitePath>) -> Seq<Seq<Seq<u8>>> {
    Seq::new(l.len(), |i: int| l[i]@)
}

/// The components of a path joined by `/` into one byte string.
pub open spec fn joined_bytes(p: Seq<Seq<u8>>) -> Seq<u8>
    decreases p.len(),
{
    if p.len() == 0 {
        Seq::empty()
    } else if p.len() == 1 {
        p[0]
    } else {
        joined_bytes(p.drop_last()) + seq![47u8] + p.last()
    }
}

/// Where `rfind_dot` points: at the last `.` of the name, when there is one.
pub proof fn lemma_rfind_dot_props(name: Seq<u8>)
    ensures
        match rfind_dot(name) {
            Some(i) => 0 <= i < name.len() && name[i] == 46u8 && (forall|j: int|
                i < j < name.len() ==> name[j] != 46u8),
            None => forall|j: int| 0 <= j < name.len() ==> name[j] != 46u8,
        },
    decreases name.len(),
{
    if name.len() > 0 && name.last() != 46u8 {
        lemma_rfind_dot_props(name.drop_last());
        assert forall|j: int| 0 <= j < name.len() - 1 implies name[j] == name.drop_last()[j] by {}
    }
}

impl SitePath {
    /// The extension of the path's last component, as fresh bytes.
    pub fn extension(&self) -> (r: Option<Vec<u8>>)
        ensures
            match r {
                Some(e) => path_ext(self@) == Some(e@),
                None => path_ext(self@) is None,
            },
    {
        proof {
            assert(self@.len() == self.segs@.len());
        }
        if self.segs.len() == 0 {
            return None;
        }
        let last = self.segs.len() - 1;
        let name = &self.segs[last];
        proof {
            assert(self@[last as int] == self.segs@[last as int]@);
            assert(self@.last() == name@);
            lemma_rfind_dot_props(name@);
        }
        let n = name.len();
        match find_last_dot(name) {
            None => None,
            Some(i) => if i == 0 {
                None
            } else {
                proof {
                    assert(i < n);
                }
                let mut e: Vec<u8> = Vec::new();
                let mut j: usize = i + 1;
                proof {
                    assert(e@ =~= name@.subrange(i + 1, i + 1));
                }
                while j < name.len()
                    invariant
                        i + 1 <= j <= name@.len(),
                        e@ == name@.subrange(i + 1, j as int),
                    decreases name@.len() - j,
                {
                    e.push(name[j]);
                    proof {
                        assert(e@ =~= name@.subrange(i + 1, j + 1));
                    }
                    j = j + 1;
                }
                proof {
                    assert(name@.subrange(i + 1, name@.len() as int) =~= name@.skip(i + 1));
                }
                Some(e)
            },
        }
    }

    /// This path with the extension of its last component replaced by `e`.
    pub fn with_extension(&self, e: &Vec<u8>) -> (r: SitePath)
        ensures
            r@ == with_ext(self@, e@),
    {
        proof {
            assert(self@.len() == self.segs@.len());
        }
        let mut r = self.duplicate();
        if r.segs.len() == 0 {
            proof {
                assert(r@ =~= with_ext(self@, e@));
            }
            return r;
        }
        let last = r.segs.len() - 1;
        let name = &self.segs[last];
        proof {
            assert(self@[last as int] == self.segs@[last as int]@);
            assert(self@.last() == name@);
            lemma_rfind_dot_props(name@);
        }
        let mut new_name: Vec<u8> = Vec::new();
        let stem_len: usize = match find_last_dot(name) {
            None => name.len(),
            Some(i) => if i == 0 {
                name.len()
            } else {
                i
            },
        };
        let ghost stem = name@.take(stem_len as int);
        let mut j: usize = 0;
        while j < stem_len
            invariant
                j <= stem_len,
                stem_len <= name@.len(),
                stem == name@.take(stem_len as int),
                new_name@ == name@.subrange(0, j as int),
            decreases stem_len - j,
        {
            new_name.push(name[j]);
            proof {
                assert(new_name@ =~= name@.subrange(0, j + 1));
            }
            j = j + 1;
        }
        proof {
            assert(new_name@ =~= stem);
        }
        if e.len() > 0 {
            new_name.push(46u8);
            proof {
                assert(new_name@ =~= stem + seq![46u8] + e@.take(0));
            }
            let mut k: usize = 0;
            while k < e.len()
                invariant
                    k <= e@.len(),
                    stem == name@.take(stem_len as int),
                    new_name@ == stem + seq![46u8] + e@.take(k as int),
                decreases e@.len() - k,
            {
                new_name.push(e[k]);
                proof {
                    assert(new_name@ =~= stem + seq![46u8] + e@.take(k + 1));
                }
                k = k + 1;
            }
            proof {
                assert(e@.take(e@.len() as int) =~= e@);
            }
        }
        proof {
            assert(name@.take(name@.len() as int) =~= name@);
            assert(set_name_ext(self@.last(), e@) == new_name@);
        }
        let ghost before = r@;
        r.segs[last] = new_name;
        proof {
            assert forall|j2: int| 0 <= j2 < r@.len() implies r@[j2] == with_ext(self@, e@)[j2] by {
                assert(r@[j2] == r.segs@[j2]@);
                if j2 != last {
                    assert(before[j2] == self@[j2]);
                }
            }
            assert(r@ =~= with_ext(self@, e@));
        }
        r
    }

    /// This path extended by one more component.
    pub fn join_seg(&self, seg: Vec<u8>) -> (r: SitePath)
        ensures
            r@ == self@.push(seg@),
    {
        let mut r = self.duplicate();
        r.segs.push(seg);
        proof {
            assert(r@ =~= self@.push(seg@));
        }
        r
    }

    /// The path of the first `n` components of this path.
    pub fn take_prefix(&self, n: usize) -> (r: SitePath)
        requires
            n <= self@.len(),
        ensures
            r@ == self@.take(n as int),
    {
        proof {
            assert(self@.len() == self.segs@.len());
        }
        let mut segs: Vec<Vec<u8>> = Vec::new();
        let mut i: usize = 0;
        while i < n
            invariant
                i <= n,
                n <= self.segs@.len(),
                segs_view(segs@) == self@.take(i as int),
                self@.len() == self.segs@.len(),
            decreases n - i,
        {
            let ghost prev = segs@;
            segs.push(clone_bytes(&self.segs[i]));
            proof {
                assert(segs_view(prev).len() == prev.len());
                assert(self@.take(i as int).len() == i);
                assert forall|j: int| 0 <= j < segs@.len() implies segs_view(segs@)[j] == self@.take(
                    i + 1,
                )[j] by {
                    if j < i {
                        assert(segs_view(prev)[j] == self@.take(i as int)[j]);
                    } else {
                        assert(j == i);
                        assert(self@[j] == self.segs@[j]@);
                    }
                }
                assert(segs_view(segs@) =~= self@.take(i + 1));
            }
            i = i + 1;
        }
        SitePath { segs }
    }

    /// The components joined by `/`, decoded as UTF-8: the name a page is
    /// registered under in the template engine. A path whose bytes are not
    /// valid UTF-8 cannot be named and is reported as such.
    pub fn to_name(&self) -> (r: Result<String, Error>)
        ensures
            match r {
                Ok(s) => utf8_decode(joined_bytes(self@)) == Some(s@),
                Err(e) => utf8_decode(joined_bytes(self@)) is None && (e matches
                Error::PathConversion { path } && path@ == self@),
            },
    {
        proof {
            assert(self@.len() == self.segs@.len());
        }
        let mut bytes: Vec<u8> = Vec::new();
        let mut i: usize = 0;
        while i < self.segs.len()
            invariant
                i <= self.segs@.len(),
                self@.len() == self.segs@.len(),
                bytes@ == joined_bytes(self@.take(i as int)),
            decreases self.segs@.len() - i,
        {
            proof {
                assert(self@[i as int] == self.segs@[i as int]@);
            }
            if i > 0 {
                bytes.push(47u8);
            }
            let ghost before = bytes@;
            let seg = &self.segs[i];
            let mut j: usize = 0;
            while j < seg.len()
                invariant
                    i < self.segs@.len(),
                    seg@ == self.segs@[i as int]@,
                    j <= seg@.len(),
                    bytes@ == before + self.segs@[i as int]@.subrange(0, j as int),
                decreases seg@.len() - j,
            {
                bytes.push(seg[j]);
                proof {
                    assert(bytes@ =~= before + self.segs@[i as int]@.subrange(0, j + 1));
                }
                j = j + 1;
            }
            proof {
                let part = self@.take(i + 1);
                assert(self.segs@[i as int]@.subrange(0, self.segs@[i as int]@.len() as int)
                    =~= self.segs@[i as int]@);
                assert(part.drop_last() =~= self@.take(i as int));
                assert(part.last() == self@[i as int]);
                if i == 0 {
                    assert(joined_bytes(self@.take(0int)) + self@[0int] =~= self@[0int]);
                    assert(bytes@ =~= joined_bytes(part));
                } else {
                    assert(bytes@ =~= joined_bytes(self@.take(i as int)) + seq![47u8]
                        + self@[i as int]);
                    assert(bytes@ =~= joined_bytes(part));
                }
            }
            i = i + 1;
        }
        proof {
            assert(self@.take(self@.len() as int) =~= self@);
        }
        match decode_utf8(bytes) {
            Some(s) => Ok(s),
            None => Err(Error::PathConversion { path: self.duplicate() }),
        }
    }
}

/// The position of the last `.` in a byte string, scanned from the end.
fn find_last_dot(name: &Vec<u8>) -> (r: Option<usize>)
    ensures
        match r {
            Some(i) => rfind_dot(name@) == Some(i as int),
            None => rfind_dot(name@) is None,
        },
{
    let mut i: usize = name.len();
    proof {
        assert(name@.take(name@.len() as int) =~= name@);
    }
    while i > 0
        invariant
            i <= name@.len(),
            rfind_dot(name@) == rfind_dot(name@.take(i as int)),
        decreases i,
    {
        i = i - 1;
        if name[i] == 46u8 {
            proof {
                assert(name@.take(i + 1).last() == name@[i as int]);
            }
            return Some(i);
        }
        proof {
            assert(name@.take(i + 1).last() == name@[i as int]);
            assert(name@.take(i + 1).drop_last() =~= name@.take(i as int));
        }
    }
    proof {
        assert(name@.take(0) =~= Seq::<u8>::empty());
    }
    None
}

/// Rewrites `path` from the root `from` to the root `to`, keeping the
/// relative suffix. A path that does not start with `from` cannot be
/// rewritten; that is a broken caller invariant and is surfaced as an
/// error, never a crash.
pub fn swap_prefix(path: &SitePath, from: &SitePath, to: &SitePath) -> (r: Result<
    SitePath,
    Error,
>)
    ensures
        is_prefix_of(from@, path@) ==> (r matches Ok(q) && q@ == swapped(path@, from@, to@)),
        !is_prefix_of(from@, path@) ==> (r matches Err(e) && (e matches Error::StripPath {
            path: p,
            prefix,
        } && p@ == path@ && prefix@ == from@)),
{
    if !path.starts_with(from) {
        return Err(
            Error::StripPath { path: path.duplicate(), prefix: from.duplicate() },
        );
    }
    proof {
        assert(path@.len() == path.segs@.len());
        assert(from@.len() == from.segs@.len());
    }
    let mut r = to.duplicate();
    let mut i: usize = from.segs.len();
    while i < path.segs.len()
        invariant
            from.segs@.len() <= i <= path.segs@.len(),
            path@.len() == path.segs@.len(),
            r@ == to@ + path@.subrange(from.segs@.len() as int, i as int),
        decreases path.segs@.len() - i,
    {
        proof {
            assert(path@[i as int] == path.segs@[i as int]@);
        }
        let ghost prev = r@;
        r = r.join_seg(clone_bytes(&path.segs[i]));
        proof {
            assert(r@ =~= to@ + path@.subrange(from.segs@.len() as int, i + 1));
        }
        i = i + 1;
    }
    proof {
        assert(path@.subrange(from@.len() as int, path@.len() as int) =~= path@.skip(
            from@.len() as int,
        ));
    }
    Ok(r)
}

/// Swapping a prefix out and back is the identity: rewriting a path rooted
/// under `a` into root `b` and then back into root `a` returns the path.
pub proof fn lemma_swap_prefix_round_trip(p: Seq<Seq<u8>>, a: Seq<Seq<u8>>, b: Seq<Seq<u8>>)
    requires
        is_prefix_of(a, p),
    ensures
        is_prefix_of(b, swapped(p, a, b)),
        swapped(swapped(p, a, b), b, a) == p,
{
    let q = swapped(p, a, b);
    assert(q.take(b.len() as int) =~= b);
    assert(q.skip(b.len() as int) =~= p.skip(a.len() as int));
    assert(a + p.skip(a.len() as int) =~= p);
}

/// Whether `p` occurs, by contents, in `list`.
pub fn path_in_list(list: &Vec<SitePath>, p: &SitePath) -> (r: bool)
    ensures
        r == paths_view(list@).contains(p@),
{
    let mut i: usize = 0;
    while i < list.len()
        invariant
            i <= list@.len(),
            forall|j: int| 0 <= j < i ==> paths_view(list@)[j] != p@,
        decreases list@.len() - i,
    {
        if list[i].path_eq(p) {
            proof {
                assert(paths_view(list@)[i as int] == p@);
            }
            return true;
        }
        i = i + 1;
    }
    proof {
        assert(!paths_view(list@).contains(p@));
    }
    false
}

/// Whether two byte strings are equal, by contents.
pub fn bytes_eq(a: &Vec<u8>, b: &Vec<u8>) -> (r: bool)
    ensures
        r == (a@ == b@),
{
    if a.len() != b.len() {
        return false;
    }
    let mut i: usize = 0;
    while i < a.len()
        invariant
            i <= a.len(),
            a.len() == b.len(),
            forall|j: int| 0 <= j < i ==> a@[j] == b@[j],
        decreases a.len() - i,
    {
        if a[i] != b[i] {
            return false;
        }
        i = i + 1;
    }
    proof {
        assert(a@ =~= b@);
    }
    true
}

/// A fresh byte string with the same contents.
pub fn clone_bytes(v: &Vec<u8>) -> (r: Vec<u8>)
    ensures
        r@ == v@,
{
    let mut r: Vec<u8> = Vec::new();
    let mut i: usize = 0;
    while i < v.len()
        invariant
            i <= v.len(),
            r@ == v@.take(i as int),
        decreases v.len() - i,
    {
        r.push(v[i]);
        proof {
            assert(r@ =~= v@.take(i + 1 as int));
        }
        i = i + 1;
    }
    proof {
        assert(v@.take(v.len() as int) =~= v@);
    }
    r
}

/// Relies on `String::from_utf8`: it returns the string decoded from the
/// bytes exactly when they are valid UTF-8, and the result is a function
/// of the bytes alone.
#[verifier::external_body]
pub(crate) fn decode_utf8(bytes: Vec<u8>) -> (r: Option<String>)
    ensures
        match r {
            Some(s) => utf8_decode(bytes@) == Some(s@),
            None => utf8_decode(bytes@) is None,
        },
{
    String::from_utf8(bytes).ok()
}

} // verus!
