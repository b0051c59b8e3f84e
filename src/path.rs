//! Filesystem paths as plain values: whether a path starts at the root, and
//! its normal components.

use vstd::prelude::*;

verus! {

/// What a path means: whether it starts at the root, and its components in order.
pub struct PathModel {
    pub absolute: bool,
    pub parts: Seq<Seq<char>>,
}

/// A path, held as its normal components.
///
/// Paths from `canonicalize` are absolute and hold no `.`, `..` or empty
/// component; paths relative to a base directory are relative.
#[derive(Debug, PartialEq, Eq, Hash)]
pub struct FsPath {
    pub absolute: bool,
    pub parts: Vec<String>,
}

impl View for FsPath {
    type V = PathModel;

    open spec fn view(&self) -> PathModel {
        PathModel { absolute: self.absolute, parts: self.parts@.map_values(|p: String| p@) }
    }
}

/// The pieces of `s` between its `/` separators, empty ones as well.
pub open spec fn segments(s: Seq<char>) -> Seq<Seq<char>>
    decreases s.len(),
{
    if s.len() == 0 {
        seq![Seq::empty()]
    } else {
        let init = segments(s.drop_last());
        if s.last() == '/' {
            init.push(Seq::empty())
        } else {
            init.update(init.len() - 1, init.last().push(s.last()))
        }
    }
}

/// A component that names something: not empty, and not `.`.
pub open spec fn is_normal_part(p: Seq<char>) -> bool {
    p.len() > 0 && p != seq!['.']
}

/// The normal components among `q`, in order.
pub open spec fn normal_parts(q: Seq<Seq<char>>) -> Seq<Seq<char>>
    decreases q.len(),
{
    if q.len() == 0 {
        Seq::empty()
    } else {
        let rest = normal_parts(q.drop_last());
        if is_normal_part(q.last()) {
            rest.push(q.last())
        } else {
            rest
        }
    }
}

/// The path that the text `s` names.
pub open spec fn parse_path(s: Seq<char>) -> PathModel {
    PathModel { absolute: s.len() > 0 && s[0] == '/', parts: normal_parts(segments(s)) }
}

/// The view of an optional path.
pub open spec fn opt_path(o: Option<FsPath>) -> Option<PathModel> {
    match o {
        Some(p) => Some(p@),
        None => None,
    }
}

/// `rel` read from the directory `base`; an absolute `rel` stands for itself.
pub open spec fn joined(base: PathModel, rel: PathModel) -> PathModel {
    if rel.absolute {
        rel
    } else {
        PathModel { absolute: base.absolute, parts: base.parts + rel.parts }
    }
}

/// `p` lies in the directory `base` (or is `base` itself).
pub open spec fn is_inside(base: PathModel, p: PathModel) -> bool {
    &&& base.absolute == p.absolute
    &&& base.parts.len() <= p.parts.len()
    &&& p.parts.take(base.parts.len() as int) == base.parts
}

/// `target` relative to `base` where it lies inside it, else `target` as it is.
pub open spec fn regularized(base: PathModel, target: PathModel) -> PathModel {
    if is_inside(base, target) {
        PathModel { absolute: false, parts: target.parts.skip(base.parts.len() as int) }
    } else {
        target
    }
}

/// The components of `q` with a `/` between each two.
pub open spec fn parts_text(q: Seq<Seq<char>>) -> Seq<char>
    decreases q.len(),
{
    if q.len() == 0 {
        Seq::empty()
    } else if q.len() == 1 {
        q[0]
    } else {
        parts_text(q.drop_last()) + seq!['/'] + q.last()
    }
}

/// How a path is written: its components joined by `/`, after a `/` when absolute.
pub open spec fn path_text(m: PathModel) -> Seq<char> {
    if m.absolute {
        seq!['/'] + parts_text(m.parts)
    } else {
        parts_text(m.parts)
    }
}

impl Clone for FsPath {
    fn clone(&self) -> (r: FsPath)
        ensures
            r@ == self@,
    {
        let parts = self.parts.clone();
        assert(parts@.map_values(|p: String| p@) =~= self.parts@.map_values(|p: String| p@));
        FsPath { absolute: self.absolute, parts }
    }
}

/// Appends `piece` to `parts` when it is a normal component.
fn push_normal(parts: &mut Vec<String>, piece: &str)
    ensures
        final(parts)@.map_values(|p: String| p@) == if is_normal_part(piece@) {
            old(parts)@.map_values(|p: String| p@).push(piece@)
        } else {
            old(parts)@.map_values(|p: String| p@)
        },
{
    let n = piece.unicode_len();
    let dot = n == 1 && piece.get_char(0) == '.';
    proof {
        if n == 1 && piece@ == seq!['.'] {
            assert(piece@[0] == '.');
        }
        if dot {
            assert(piece@ =~= seq!['.']);
        }
    }
    if n > 0 && !dot {
        let ghost before = parts@;
        parts.push(String::from_str(piece));
        assert(parts@.map_values(|p: String| p@) =~= before.map_values(|p: String| p@).push(
            piece@,
        ));
    }
}

impl FsPath {
    /// The path that `s` names, split at `/`; empty and `.` components are left out.
    pub fn parse(s: &str) -> (r: FsPath)
        ensures
            r@ == parse_path(s@),
    {
        let n = s.unicode_len();
        let mut parts: Vec<String> = Vec::new();
        let mut start: usize = 0;
        let mut i: usize = 0;
        let ghost mut done: Seq<Seq<char>> = Seq::empty();
        assert(s@.take(0) =~= Seq::<char>::empty());
        assert(s@.subrange(0, 0) =~= Seq::<char>::empty());
        while i < n
            invariant
                n == s@.len(),
                start <= i <= n,
                segments(s@.take(i as int)) == done.push(s@.subrange(start as int, i as int)),
                parts@.map_values(|p: String| p@) == normal_parts(done),
            decreases n - i,
        {
            let c = s.get_char(i);
            let ghost prefix = s@.take(i + 1);
            assert(prefix.drop_last() =~= s@.take(i as int));
            assert(prefix.last() == c);
            if c == '/' {
                let piece = s.substring_char(start, i);
                push_normal(&mut parts, piece);
                proof {
                    let q = done.push(s@.subrange(start as int, i as int));
                    assert(q.drop_last() =~= done);
                    done = q;
                    assert(s@.subrange(i + 1, i + 1) =~= Seq::<char>::empty());
                }
                start = i + 1;
            } else {
                assert(s@.subrange(start as int, i as int).push(c) =~= s@.subrange(
                    start as int,
                    i + 1,
                ));
                assert(done.push(s@.subrange(start as int, i as int)).update(
                    done.len() as int,
                    s@.subrange(start as int, i + 1),
                ) =~= done.push(s@.subrange(start as int, i + 1)));
            }
            i = i + 1;
        }
        let last = s.substring_char(start, n);
        push_normal(&mut parts, last);
        proof {
            let q = done.push(s@.subrange(start as int, n as int));
            assert(q.drop_last() =~= done);
            assert(s@.take(n as int) =~= s@);
        }
        let absolute = n > 0 && s.get_char(0) == '/';
        FsPath { absolute, parts }
    }

    /// The path written out: components joined by `/`, after a `/` when absolute.
    pub fn to_text(&self) -> (r: String)
        ensures
            r@ == path_text(self@),
    {
        let mut text = String::new();
        let mut i: usize = 0;
        while i < self.parts.len()
            invariant
                i <= self.parts.len(),
                text@ == parts_text(self@.parts.take(i as int)),
            decreases self.parts.len() - i,
        {
            proof {
                reveal_strlit("/");
            }
            let ghost before = text@;
            if i > 0 {
                text.append("/");
            }
            text.append(self.parts[i].as_str());
            proof {
                let q = self@.parts.take(i + 1);
                assert(q.drop_last() =~= self@.parts.take(i as int));
                if i == 0 {
                    assert(before =~= Seq::<char>::empty());
                    assert(text@ =~= q[0]);
                } else {
                    assert(text@ =~= before + seq!['/'] + q.last());
                }
            }
            i = i + 1;
        }
        assert(self@.parts.take(self.parts.len() as int) =~= self@.parts);
        proof {
            reveal_strlit("/");
        }
        if self.absolute {
            let mut full = String::from_str("/");
            full.append(text.as_str());
            full
        } else {
            text
        }
    }

    /// The same path, compared component by component.
    pub fn same(&self, other: &FsPath) -> (r: bool)
        ensures
            r == (self@ == other@),
    {
        if self.absolute != other.absolute || self.parts.len() != other.parts.len() {
            proof {
                if self@ == other@ {
                    assert(self.parts@.map_values(|p: String| p@).len() == self.parts@.len());
                }
            }
            return false;
        }
        let mut i: usize = 0;
        while i < self.parts.len()
            invariant
                self.parts.len() == other.parts.len(),
                i <= self.parts.len(),
                forall|k: int| 0 <= k < i ==> self.parts@[k]@ == other.parts@[k]@,
            decreases self.parts.len() - i,
        {
            if self.parts[i] != other.parts[i] {
                assert(self@.parts[i as int] != other@.parts[i as int]);
                return false;
            }
            i = i + 1;
        }
        assert(self@.parts =~= other@.parts);
        true
    }

    /// `rel` read from the directory `self`; an absolute `rel` is returned as it is.
    pub fn join(&self, rel: &FsPath) -> (r: FsPath)
        ensures
            r@ == joined(self@, rel@),
    {
        if rel.absolute {
            return rel.clone();
        }
        let mut parts = self.parts.clone();
        assert(parts@.map_values(|p: String| p@) =~= self@.parts);
        let mut i: usize = 0;
        while i < rel.parts.len()
            invariant
                i <= rel.parts.len(),
                parts@.map_values(|p: String| p@) == self@.parts + rel@.parts.take(i as int),
            decreases rel.parts.len() - i,
        {
            let ghost before = parts@;
            parts.push(rel.parts[i].clone());
            assert(parts@.map_values(|p: String| p@) =~= before.map_values(|p: String| p@).push(
                rel.parts@[i as int]@,
            ));
            assert(rel@.parts.take(i + 1) =~= rel@.parts.take(i as int).push(rel.parts@[i as int]@));
            i = i + 1;
        }
        assert(rel@.parts.take(rel.parts.len() as int) =~= rel@.parts);
        FsPath { absolute: self.absolute, parts }
    }
}

/// `target` relative to `base` where it lies inside `base`, else `target`
/// unchanged. Both are expected to be canonical; nothing on disk is read.
pub fn regularize(base: &FsPath, target: &FsPath) -> (r: FsPath)
    ensures
        r@ == regularized(base@, target@),
{
    let nb = base.parts.len();
    if base.absolute != target.absolute || nb > target.parts.len() {
        return target.clone();
    }
    let mut i: usize = 0;
    while i < nb
        invariant
            nb == base.parts.len(),
            nb <= target.parts.len(),
            i <= nb,
            forall|k: int| 0 <= k < i ==> base.parts@[k]@ == target.parts@[k]@,
        decreases nb - i,
    {
        if base.parts[i] != target.parts[i] {
            assert(target@.parts.take(nb as int)[i as int] != base@.parts[i as int]);
            return target.clone();
        }
        i = i + 1;
    }
    assert(target@.parts.take(nb as int) =~= base@.parts);
    let mut parts: Vec<String> = Vec::new();
    let mut j: usize = nb;
    while j < target.parts.len()
        invariant
            nb <= j <= target.parts.len(),
            parts@.map_values(|p: String| p@) == target@.parts.subrange(nb as int, j as int),
        decreases target.parts.len() - j,
    {
        let ghost before = parts@;
        parts.push(target.parts[j].clone());
        assert(parts@.map_values(|p: String| p@) =~= before.map_values(|p: String| p@).push(
            target.parts@[j as int]@,
        ));
        assert(target@.parts.subrange(nb as int, j + 1) =~= target@.parts.subrange(
            nb as int,
            j as int,
        ).push(target.parts@[j as int]@));
        j = j + 1;
    }
    assert(target@.parts.subrange(nb as int, target.parts.len() as int) =~= target@.parts.skip(
        nb as int,
    ));
    FsPath { absolute: false, parts }
}

/// A path inside the base directory comes out relative, and reading it from
/// the base gives the path back.
pub proof fn lemma_regularize_inside(base: PathModel, p: PathModel)
    requires
        is_inside(base, p),
    ensures
        !regularized(base, p).absolute,
        joined(base, regularized(base, p)) == p,
{
    let r = regularized(base, p);
    assert(base.parts + r.parts =~= p.parts) by {
        assert(p.parts =~= p.parts.take(base.parts.len() as int) + p.parts.skip(
            base.parts.len() as int,
        ));
    }
}

/// A path outside the base directory is returned unchanged.
pub proof fn lemma_regularize_outside(base: PathModel, p: PathModel)
    requires
        !is_inside(base, p),
    ensures
        regularized(base, p) == p,
{
}

} // verus!
