//! The boundary validator: joining a sanitized relative path under the
//! served root, and judging what the filesystem's canonicalization of
//! that joined path means.  Containment is decided component-wise,
//! never by raw text prefix, so a sibling such as `/data-other` can
//! never pass for a descendant of `/data`.
use vstd::prelude::*;
use crate::chars::str_eq;
use crate::paths::{join_segments, RelPath};

verus! {

/// An absolute path, one component per element; its text is `/` plus
/// the components joined by `/`.  A value of this type proves nothing
/// by itself: only `validate_resolved` hands out contained ones.
#[derive(Debug)]
pub struct AbsPath {
    pub segs: Vec<String>,
}

impl View for AbsPath {
    type V = Seq<Seq<char>>;

    open spec fn view(&self) -> Seq<Seq<char>> {
        self.segs.deep_view()
    }
}

/// The error taxonomy every request maps to.
#[derive(Clone, Copy, Debug, PartialEq, Eq, Structural)]
pub enum FsError {
    /// The path or token does not lead to an existing, in-bounds target.
    NotFound,
    /// The path resolves outside the root: a traversal or symlink escape.
    Forbidden,
    /// A directory operation was asked of a file.
    NotADirectory,
    /// A file operation was asked of a directory.
    NotAFile,
    /// An I/O failure unrelated to the above.
    InternalError,
}

/// What the filesystem said when asked to canonicalize a joined path;
/// the caller performs that call and reports the outcome here.
pub enum CanonOutcome {
    /// Canonicalization succeeded and resolved to this absolute path.
    Resolved(AbsPath),
    /// The path does not exist.
    MissingTarget,
    /// Any other failure: permissions, I/O errors.
    OtherFailure,
}

/// `path` is a component-wise descendant of (or equal to) `root`.
pub open spec fn contained_in(path: Seq<Seq<char>>, root: Seq<Seq<char>>) -> bool {
    path.len() >= root.len() && path.subrange(0, root.len() as int) == root
}

/// Decides `contained_in`, comparing whole components.
pub fn is_contained(path: &AbsPath, root: &AbsPath) -> (r: bool)
    ensures
        r == contained_in(path@, root@),
{
    if path.segs.len() < root.segs.len() {
        proof {
            assert(path@.len() == path.segs@.len());
            assert(root@.len() == root.segs@.len());
        }
        return false;
    }
    let n: usize = root.segs.len();
    let mut i: usize = 0;
    while i < n
        invariant
            n == root.segs@.len(),
            n == root@.len(),
            path@.len() == path.segs@.len(),
            path.segs@.len() >= n,
            0 <= i <= n,
            forall|j: int| 0 <= j < i ==> path@[j] == root@[j],
        decreases n - i,
    {
        proof {
            assert(path@[i as int] == path.segs@[i as int]@);
            assert(root@[i as int] == root.segs@[i as int]@);
        }
        if !str_eq(path.segs[i].as_str(), root.segs[i].as_str()) {
            proof {
                if contained_in(path@, root@) {
                    assert(path@.subrange(0, root@.len() as int)[i as int] == root@[i as int]);
                }
            }
            return false;
        }
        i += 1;
    }
    proof {
        assert(path@.subrange(0, root@.len() as int) =~= root@);
    }
    true
}

/// Appends the components of a sanitized relative path to the root, a
/// flat join with no further interpretation: the filesystem, not this
/// function, resolves whatever the result points at.
pub fn join_under_root(root: &AbsPath, rel: &RelPath) -> (r: AbsPath)
    ensures
        r@ == root@ + rel@,
{
    let mut segs: Vec<String> = Vec::new();
    let mut i: usize = 0;
    while i < root.segs.len()
        invariant
            0 <= i <= root.segs@.len(),
            root@.len() == root.segs@.len(),
            segs.deep_view() =~= root@.subrange(0, i as int),
        decreases root.segs.len() - i,
    {
        let ghost pre = segs.deep_view();
        proof {
            assert(root@[i as int] == root.segs@[i as int]@);
        }
        segs.push(root.segs[i].clone());
        proof {
            assert(segs.deep_view() =~= pre.push(root@[i as int]));
            assert(pre.push(root@[i as int]) =~= root@.subrange(0, i as int + 1));
        }
        i += 1;
    }
    proof {
        assert(root@.subrange(0, root@.len() as int) =~= root@);
    }
    let mut j: usize = 0;
    while j < rel.segs.len()
        invariant
            0 <= j <= rel.segs@.len(),
            rel@.len() == rel.segs@.len(),
            segs.deep_view() =~= root@ + rel@.subrange(0, j as int),
        decreases rel.segs.len() - j,
    {
        let ghost pre = segs.deep_view();
        proof {
            assert(rel@[j as int] == rel.segs@[j as int]@);
        }
        segs.push(rel.segs[j].clone());
        proof {
            assert(segs.deep_view() =~= pre.push(rel@[j as int]));
            assert(pre.push(rel@[j as int]) =~= root@ + rel@.subrange(0, j as int + 1));
        }
        j += 1;
    }
    proof {
        assert(rel@.subrange(0, rel@.len() as int) =~= rel@);
    }
    AbsPath { segs }
}

/// The text of an absolute path: `/` plus its components joined by `/`.
pub fn abs_to_string(p: &AbsPath) -> (r: String)
    ensures
        r@ == seq!['/'] + join_segments(p@),
{
    let mut out: String = String::new();
    out.push('/');
    let mut i: usize = 0;
    proof {
        assert(p@.subrange(0, 0) =~= Seq::<Seq<char>>::empty());
        assert(out@ =~= seq!['/'] + join_segments(p@.subrange(0, 0)));
    }
    while i < p.segs.len()
        invariant
            0 <= i <= p.segs@.len(),
            p@.len() == p.segs@.len(),
            out@ =~= seq!['/'] + join_segments(p@.subrange(0, i as int)),
        decreases p.segs.len() - i,
    {
        proof {
            assert(p@[i as int] == p.segs@[i as int]@);
        }
        if i > 0 {
            out.push('/');
            out.append(p.segs[i].as_str());
            proof {
                let pre = p@.subrange(0, i as int);
                crate::paths::lemma_join_snoc(pre, p@[i as int]);
                assert(pre.push(p@[i as int]) =~= p@.subrange(0, i as int + 1));
                assert(out@ =~= seq!['/'] + join_segments(p@.subrange(0, i as int + 1)));
            }
        } else {
            out.append(p.segs[i].as_str());
            proof {
                assert(p@.subrange(0, 1) =~= seq![p@[0]]);
                assert(join_segments(seq![p@[0]]) == p@[0]);
                assert(out@ =~= seq!['/'] + join_segments(p@.subrange(0, 1)));
            }
        }
        i += 1;
    }
    proof {
        assert(p@.subrange(0, p@.len() as int) =~= p@);
    }
    out
}

/// The last component of an absolute path: the file's name.
pub fn abs_file_name(p: &AbsPath) -> (r: Option<&String>)
    ensures
        p@.len() == 0 ==> r is None,
        p@.len() > 0 ==> (r matches Some(n) && n@ == p@.last()),
{
    if p.segs.len() == 0 {
        None
    } else {
        let n: &String = &p.segs[p.segs.len() - 1];
        proof {
            assert(p@[p@.len() - 1] == p.segs@[p.segs@.len() - 1]@);
        }
        Some(n)
    }
}

/// The single security checkpoint: judges the filesystem's answer for
/// a joined path.  A missing target is `NotFound`, any other failure
/// `InternalError`; a resolved path is accepted exactly when it is a
/// component-wise descendant of the root, and refused as `Forbidden`
/// otherwise.  Every `Ok` is therefore contained in the root — the
/// containment invariant.
pub fn validate_resolved(root: &AbsPath, outcome: CanonOutcome) -> (r: Result<AbsPath, FsError>)
    ensures
        r matches Ok(v) ==> (outcome matches CanonOutcome::Resolved(c) && v@ == c@
            && contained_in(v@, root@)),
        (outcome matches CanonOutcome::Resolved(c) && contained_in(c@, root@)) ==> r is Ok,
        (outcome matches CanonOutcome::Resolved(c) && !contained_in(c@, root@)) ==> r === Err(
            FsError::Forbidden,
        ),
        outcome is MissingTarget ==> r === Err(FsError::NotFound),
        outcome is OtherFailure ==> r === Err(FsError::InternalError),
{
    match outcome {
        CanonOutcome::Resolved(c) => {
            if is_contained(&c, root) {
                Ok(c)
            } else {
                Err(FsError::Forbidden)
            }
        },
        CanonOutcome::MissingTarget => Err(FsError::NotFound),
        CanonOutcome::OtherFailure => Err(FsError::InternalError),
    }
}

/// The transport status each error kind surfaces as.
pub open spec fn status_of(e: FsError) -> u16 {
    match e {
        FsError::NotFound => 404,
        FsError::Forbidden => 403,
        FsError::NotADirectory => 400,
        FsError::NotAFile => 400,
        FsError::InternalError => 500,
    }
}

/// Maps an error kind to its transport status code.
pub fn error_status(e: &FsError) -> (s: u16)
    ensures
        s == status_of(*e),
{
    match e {
        FsError::NotFound => 404,
        FsError::Forbidden => 403,
        FsError::NotADirectory => 400,
        FsError::NotAFile => 400,
        FsError::InternalError => 500,
    }
}

/// Judges a browse target: validated as `validate_resolved`, and the
/// resolved path must be a directory, else the request shape is wrong.
pub fn dir_target(root: &AbsPath, outcome: CanonOutcome, is_dir: bool) -> (r: Result<
    AbsPath,
    FsError,
>)
    ensures
        r matches Ok(v) ==> (outcome matches CanonOutcome::Resolved(c) && v@ == c@
            && contained_in(v@, root@) && is_dir),
        (outcome matches CanonOutcome::Resolved(c) && contained_in(c@, root@) && is_dir) ==> r
            is Ok,
        (outcome matches CanonOutcome::Resolved(c) && !contained_in(c@, root@)) ==> r === Err(
            FsError::Forbidden,
        ),
        (outcome matches CanonOutcome::Resolved(c) && contained_in(c@, root@) && !is_dir) ==> r
            === Err(FsError::NotADirectory),
        outcome is MissingTarget ==> r === Err(FsError::NotFound),
        outcome is OtherFailure ==> r === Err(FsError::InternalError),
{
    match validate_resolved(root, outcome) {
        Ok(v) => {
            if is_dir {
                Ok(v)
            } else {
                Err(FsError::NotADirectory)
            }
        },
        Err(e) => Err(e),
    }
}

/// Judges a file target: validated as `validate_resolved`, and the
/// resolved path must (still) be a file.  Preview and share creation
/// use it once; share redemption runs it again on every use of a
/// stored path, so a vanished file is `NotFound` and never served
/// stale.
pub fn file_target(root: &AbsPath, outcome: CanonOutcome, is_file: bool) -> (r: Result<
    AbsPath,
    FsError,
>)
    ensures
        r matches Ok(v) ==> (outcome matches CanonOutcome::Resolved(c) && v@ == c@
            && contained_in(v@, root@) && is_file),
        (outcome matches CanonOutcome::Resolved(c) && contained_in(c@, root@) && is_file) ==> r
            is Ok,
        (outcome matches CanonOutcome::Resolved(c) && !contained_in(c@, root@)) ==> r === Err(
            FsError::Forbidden,
        ),
        (outcome matches CanonOutcome::Resolved(c) && contained_in(c@, root@) && !is_file) ==> r
            === Err(FsError::NotAFile),
        outcome is MissingTarget ==> r === Err(FsError::NotFound),
        outcome is OtherFailure ==> r === Err(FsError::InternalError),
{
    match validate_resolved(root, outcome) {
        Ok(v) => {
            if is_file {
                Ok(v)
            } else {
                Err(FsError::NotAFile)
            }
        },
        Err(e) => Err(e),
    }
}

} // verus!
