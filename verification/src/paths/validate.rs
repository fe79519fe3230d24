//! Holding paths to the working directory.
use vstd::prelude::*;
use vstd::utf8::*;

use super::host;
use super::host::HostPath;
use crate::error::NpxcError;
use crate::text;

verus! {

/// A path text without a leading `file://`.
pub open spec fn without_scheme(raw: Seq<char>) -> Seq<char> {
    if "file://"@.is_prefix_of(raw) {
        raw.skip("file://"@.len() as int)
    } else {
        raw
    }
}

/// The path that a path text means: without `file://`, and with a leading `~/`
/// seen from the home directory.
pub open spec fn expanded(raw: Seq<char>, home: Seq<u8>) -> Seq<u8> {
    let s = without_scheme(raw);
    if "~/"@.is_prefix_of(s) {
        host::joined(home, encode_utf8(s.skip("~/"@.len() as int)))
    } else {
        encode_utf8(s)
    }
}

/// `s` without the prefix `p`, if it begins with it.
fn strip_prefix(s: &str, p: &str) -> (r: Option<String>)
    ensures
        match r {
            Some(t) => p@.is_prefix_of(s@) && t@ == s@.skip(p@.len() as int),
            None => !p@.is_prefix_of(s@),
        },
{
    let v = text::chars_of(s);
    let w = text::chars_of(p);
    if text::matches_at(&v, &w, 0) {
        let r = text::string_of(&v, w.len(), v.len());
        assert(r@ =~= s@.skip(p@.len() as int));
        Some(r)
    } else {
        None
    }
}

/// The path that a path text means, to be resolved on the host.
pub fn expand_path(raw_path: &str, home: &HostPath) -> (r: HostPath)
    ensures
        r@ == expanded(raw_path@, home@),
{
    let stripped = match strip_prefix(raw_path, "file://") {
        Some(s) => s,
        None => raw_path.to_owned(),
    };
    match strip_prefix(stripped.as_str(), "~/") {
        Some(rest) => home.join_text(rest.as_str()),
        None => HostPath::from_text(stripped.as_str()),
    }
}

/// Holds a path to the working directory.
///
/// `canonical` is what the host resolved [`expand_path`] to, links and all, or
/// `None` if it could not; `canonical_cwd` is the resolved working directory, or
/// the text of the error. A path that was not resolved is not found; one that does
/// not lie under the working directory is out of scope. Errors carry the path as
/// it was given.
pub fn validate_path(
    raw_path: &str,
    cwd: &HostPath,
    canonical: Option<HostPath>,
    canonical_cwd: Result<HostPath, String>,
) -> (r: Result<HostPath, NpxcError>)
    ensures
        is_validation(r, raw_path@, cwd@, canonical, canonical_cwd),
{
    let canonical = match canonical {
        Some(p) => p,
        None => return Err(NpxcError::PathNotFound(raw_path.to_owned())),
    };
    let base = match canonical_cwd {
        Ok(b) => b,
        Err(m) => return Err(NpxcError::Io(m)),
    };
    if !canonical.starts_with(&base) {
        return Err(NpxcError::PathOutOfScope { path: raw_path.to_owned(), cwd: cwd.lossy() });
    }
    Ok(canonical)
}

/// What holding a path to the working directory yields.
pub open spec fn is_validation(
    r: Result<HostPath, NpxcError>,
    raw: Seq<char>,
    cwd: Seq<u8>,
    canonical: Option<HostPath>,
    canonical_cwd: Result<HostPath, String>,
) -> bool {
    match (canonical, canonical_cwd) {
        (None, _) => r matches Err(NpxcError::PathNotFound(p)) && p@ == raw,
        (Some(_), Err(m)) => r matches Err(NpxcError::Io(t)) && t@ == m@,
        (Some(c), Ok(base)) => if host::lies_under(c@, base@) {
            r matches Ok(p) && p@ == c@
        } else {
            r matches Err(NpxcError::PathOutOfScope { path, cwd: shown }) && path@ == raw && shown@
                == text::lossy_text(cwd)
        },
    }
}

/// A path is accepted only if what it resolves to lies under the resolved working
/// directory, and it is accepted as what it resolves to.
pub proof fn accepted_paths_are_in_scope(
    r: Result<HostPath, NpxcError>,
    raw: Seq<char>,
    cwd: Seq<u8>,
    canonical: Option<HostPath>,
    canonical_cwd: Result<HostPath, String>,
)
    requires
        is_validation(r, raw, cwd, canonical, canonical_cwd),
        r is Ok,
    ensures
        canonical is Some,
        canonical_cwd is Ok,
        (r->Ok_0)@ == (canonical->0)@,
        host::lies_under((r->Ok_0)@, (canonical_cwd->Ok_0)@),
{
}

/// A resolved path is accepted exactly where it is the resolved working directory or
/// goes on after it with a separator; any other is refused, under the text that it was
/// given as.
pub proof fn paths_outside_are_refused(
    r: Result<HostPath, NpxcError>,
    raw: Seq<char>,
    cwd: Seq<u8>,
    path: HostPath,
    base: HostPath,
)
    requires
        is_validation(r, raw, cwd, Some(path), Ok(base)),
        host::is_resolved(path@),
        host::is_resolved(base@),
    ensures
        r is Ok <==> path@ == base@ || (path@.len() > base@.len() && path@.take(base@.len() as int)
            == base@ && path@[base@.len() as int] == 47u8),
        r matches Ok(p) ==> p@ == path@,
        r is Err ==> (r matches Err(NpxcError::PathOutOfScope { path: shown, cwd: _ }) && shown@
            == raw),
{
    host::lying_under_is_going_on(path@, base@);
}

/// A path that the host cannot resolve is not found.
pub proof fn missing_paths_are_not_found(
    r: Result<HostPath, NpxcError>,
    raw: Seq<char>,
    cwd: Seq<u8>,
    base: Result<HostPath, String>,
)
    requires
        is_validation(r, raw, cwd, None, base),
    ensures
        r matches Err(NpxcError::PathNotFound(shown)) && shown@ == raw,
{
}

/// What path texts mean: `file://` is dropped, once; `~/` is the home directory, with
/// `file://` before it or without; any other text is the path it spells.
pub proof fn path_texts_mean_paths(s: Seq<char>, home: Seq<u8>)
    requires
        home.len() > 0,
        home.last() != 47u8,
        s.len() > 0,
        s[0] != '/',
    ensures
        expanded("~/"@ + s, home) == home + seq![47u8] + encode_utf8(s),
        expanded("file://~/"@ + s, home) == home + seq![47u8] + encode_utf8(s),
        expanded("file:///"@ + s, home) == encode_utf8("/"@ + s),
        expanded("/"@ + s, home) == encode_utf8("/"@ + s),
        s[0] != '~' && s[0] != 'f' ==> expanded(s, home) == encode_utf8(s),
{
    reveal_strlit("~/");
    reveal_strlit("file://");
    reveal_strlit("file://~/");
    reveal_strlit("file:///");
    reveal_strlit("/");
    let (tilde, scheme) = ("~/"@, "file://"@);
    let a = tilde + s;
    assert(a[0] == '~');
    assert(!scheme.is_prefix_of(a)) by {
        if scheme.is_prefix_of(a) {
            assert(a.subrange(0, 7)[0] == scheme[0]);
        }
    }
    assert(a.subrange(0, 2) =~= tilde);
    assert(a.skip(2) =~= s);
    host::encoding_begins_with(s);
    assert(home.push(47u8) =~= home + seq![47u8]);
    let b = "file://~/"@ + s;
    assert(b.subrange(0, 7) =~= scheme);
    assert(b.skip(7) =~= a);
    let c = "file:///"@ + s;
    let d = "/"@ + s;
    assert(c.subrange(0, 7) =~= scheme);
    assert(c.skip(7) =~= d);
    assert(d[0] == '/');
    assert(!tilde.is_prefix_of(d)) by {
        if tilde.is_prefix_of(d) {
            assert(d.subrange(0, 2)[0] == tilde[0]);
        }
    }
    assert(!scheme.is_prefix_of(d)) by {
        if scheme.is_prefix_of(d) {
            assert(d.subrange(0, 7)[0] == scheme[0]);
        }
    }
    if s[0] != '~' && s[0] != 'f' {
        if scheme.is_prefix_of(s) {
            assert(s.subrange(0, 7)[0] == scheme[0]);
        }
        if tilde.is_prefix_of(s) {
            assert(s.subrange(0, 2)[0] == tilde[0]);
        }
    }
}

} // verus!
