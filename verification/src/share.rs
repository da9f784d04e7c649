//! The share registry: an in-process concurrent map from capability
//! tokens to the canonical path each was minted for.  Resolution never
//! trusts the stored path: after `lookup_share`, the caller must
//! re-canonicalize the path and pass the fresh answer through
//! `file_target`, which re-checks containment and that the target is
//! still a file — stale bytes are never served.
use vstd::prelude::*;
use crate::token::{spec_parse_token, parse_token, token_text, ShareToken};
use crate::validate::{AbsPath, FsError};

verus! {

/// The token-to-path map, backed by a sharded concurrent map so that
/// lookups of unrelated tokens never serialize.  Held behind
/// `external_body` because the backing map's type cannot be declared
/// to the verifier; its contents are named by `registry_view`.
#[verifier::external_body]
pub struct ShareRegistry {
    inner: dashmap::DashMap<ShareToken, Vec<String>>,
}

/// What the registry holds: the map from each issued token to the
/// components of the file path it was minted for.
pub uninterp spec fn registry_view(r: ShareRegistry) -> Map<ShareToken, Seq<Seq<char>>>;

impl ShareRegistry {
    /// Relies on `dashmap::DashMap::new`: the fresh map is empty.
    #[verifier::external_body]
    pub fn new() -> (r: Self)
        ensures
            registry_view(r).dom() == Set::<ShareToken>::empty(),
    {
        ShareRegistry { inner: dashmap::DashMap::new() }
    }

    /// Relies on `dashmap::DashMap::insert`: afterwards the key maps to
    /// the given value and every other key is unchanged.
    #[verifier::external_body]
    pub fn insert(&mut self, t: ShareToken, p: &AbsPath)
        ensures
            registry_view(*final(self)) == registry_view(*old(self)).insert(t, p@),
    {
        self.inner.insert(t, p.segs.clone());
    }

    /// Relies on `dashmap::DashMap::get`: returns the stored value for
    /// the key, and nothing for an absent key.
    #[verifier::external_body]
    pub fn lookup(&self, t: &ShareToken) -> (r: Option<AbsPath>)
        ensures
            r matches Some(p) ==> registry_view(*self).dom().contains(*t) && p@
                == registry_view(*self)[*t],
            r is None ==> !registry_view(*self).dom().contains(*t),
    {
        self.inner.get(t).map(|e| AbsPath { segs: e.value().clone() })
    }
}

/// Relies on `uuid::Uuid::new_v4`: a freshly generated random 128-bit
/// identifier.  Nothing can be promised of a random value.
#[verifier::external_body]
pub fn fresh_token() -> (t: ShareToken) {
    let u = uuid::Uuid::new_v4();
    let (hi, lo): (u64, u64) = u.as_u64_pair();
    ShareToken { hi, lo }
}

/// Mints a token for an already-validated file path and records the
/// mapping; every earlier share stays untouched.
pub fn create_share(reg: &mut ShareRegistry, file: &AbsPath) -> (t: ShareToken)
    ensures
        registry_view(*final(reg)) == registry_view(*old(reg)).insert(t, file@),
{
    let t: ShareToken = fresh_token();
    reg.insert(t, file);
    t
}

/// The landing-page path for a token: `/share/` and its text.
pub fn share_link_path(t: &ShareToken) -> (r: String)
    ensures
        r@ == "/share/"@ + token_text(t.hi, t.lo),
{
    let mut s: String = String::from_str("/share/");
    s.append(crate::token::token_to_string(t).as_str());
    s
}

/// What resolving the text `s` against registry contents `m` must
/// yield: the stored path when `s` reads as an issued token, and
/// `NotFound` — never a hint of why — otherwise.
pub open spec fn resolve_spec(m: Map<ShareToken, Seq<Seq<char>>>, s: Seq<char>) -> Result<
    Seq<Seq<char>>,
    FsError,
> {
    match spec_parse_token(s) {
        Some(p) => {
            let t = (ShareToken { hi: p.0, lo: p.1 });
            if m.dom().contains(t) {
                Ok(m[t])
            } else {
                Err(FsError::NotFound)
            }
        },
        None => Err(FsError::NotFound),
    }
}

/// Looks a token's text up in the registry, exactly as `resolve_spec`
/// describes.  The result is only the stored path: the caller must
/// still re-validate it against the live filesystem.
pub fn lookup_share(reg: &ShareRegistry, token_str: &str) -> (r: Result<AbsPath, FsError>)
    ensures
        r matches Ok(v) ==> resolve_spec(registry_view(*reg), token_str@) == Ok::<
            Seq<Seq<char>>,
            FsError,
        >(v@),
        r matches Err(e) ==> resolve_spec(registry_view(*reg), token_str@) == Err::<
            Seq<Seq<char>>,
            FsError,
        >(e),
{
    match parse_token(token_str) {
        None => Err(FsError::NotFound),
        Some(t) => match reg.lookup(&t) {
            Some(p) => Ok(p),
            None => Err(FsError::NotFound),
        },
    }
}

} // verus!
