//! Package names and versions.
use vstd::prelude::*;
use vstd::utf8::*;

use crate::error::NpxcError;
use crate::text;

verus! {

// ---------------------------------------------------------------------------
// Sanitizing
// ---------------------------------------------------------------------------

/// A dash where `c` is `@` or `/`.
pub open spec fn dashed(c: char) -> char {
    if c == '@' || c == '/' {
        '-'
    } else {
        c
    }
}

/// A lowercase name with `@` and `/` turned into dashes, without leading dashes.
pub open spec fn cleaned(lower: Seq<char>) -> Seq<char> {
    text::trimmed_start(lower.map_values(|c: char| dashed(c)), |c: char| c == '-')
}

/// Whether every character is ASCII.
pub open spec fn all_ascii(s: Seq<char>) -> bool {
    forall|i: int| 0 <= i < s.len() ==> (#[trigger] s[i]) as u32 <= 127
}

/// A name in lowercase.
pub open spec fn lowered(name: Seq<char>) -> Seq<char> {
    if all_ascii(name) {
        text::ascii_lowered(name)
    } else {
        text::unicode_lowered(name)
    }
}

/// The filesystem-safe identifier of a package name.
pub open spec fn sanitized(name: Seq<char>) -> Seq<char> {
    cleaned(lowered(name))
}

/// Turns `@` and `/` of a lowercase name into dashes and strips leading dashes.
pub fn clean_lowercase(lower: &str) -> (r: String)
    ensures
        r@ == cleaned(lower@),
{
    let v = text::chars_of(lower);
    let ghost dash = |c: char| c == '-';
    let ghost mapped = lower@.map_values(|c: char| dashed(c));
    let mut w: Vec<char> = Vec::new();
    let mut i: usize = 0;
    while i < v.len()
        invariant
            v@ == lower@,
            mapped == lower@.map_values(|c: char| dashed(c)),
            i <= v@.len(),
            w@ == mapped.take(i as int),
        decreases v@.len() - i,
    {
        let c = v[i];
        let d = if c == '@' || c == '/' {
            '-'
        } else {
            c
        };
        w.push(d);
        assert(mapped.take(i as int).push(mapped[i as int]) =~= mapped.take(i + 1));
        i = i + 1;
    }
    assert(mapped.take(i as int) =~= mapped);
    let mut k: usize = 0;
    assert(mapped.skip(0) =~= mapped);
    while k < w.len() && w[k] == '-'
        invariant
            w@ == mapped,
            k <= w@.len(),
            dash == (|c: char| c == '-'),
            text::trimmed_start(mapped.skip(k as int), dash) == text::trimmed_start(mapped, dash),
        decreases w@.len() - k,
    {
        assert(mapped.skip(k as int).skip(1) =~= mapped.skip(k + 1));
        k = k + 1;
    }
    assert(mapped.subrange(k as int, mapped.len() as int) =~= mapped.skip(k as int));
    text::string_of(&w, k, w.len())
}

/// Turns a package name into a filesystem-safe identifier: lowercase, `@` and `/`
/// replaced by `-`, leading dashes stripped. An identifier is its own lowercase and its
/// own identifier.
#[must_use]
pub fn sanitize_package_name(pkg: &str) -> (r: String)
    ensures
        r@ == sanitized(pkg@),
        lowered(r@) == r@,
        text::unicode_lowered(r@) == r@,
        sanitized(r@) == r@,
{
    let lower = text::to_lowercase(pkg);
    let r = clean_lowercase(lower.as_str());
    proof {
        let mapped = lower@.map_values(|c: char| dashed(c));
        trimmed_start_is_suffix(mapped);
        let k = mapped.len() - r@.len();
        assert forall|i: int| 0 <= i < r@.len() implies (lower@.contains(#[trigger] r@[i]) || r@[i]
            == '-') && text::ascii_lower(r@[i]) == r@[i] by {
            assert(r@[i] == mapped[k + i]);
            assert(mapped[k + i] == dashed(lower@[k + i]));
            assert(text::ascii_lower(lower@[k + i]) == lower@[k + i]);
        }
        assert(text::drawn_from(r@, lower@));
        assert(text::ascii_lowered(r@) =~= r@);
        identifiers_are_stable(pkg@);
    }
    r
}

// ---------------------------------------------------------------------------
// Specs
// ---------------------------------------------------------------------------

/// The name and version of a package spec: parted at the last `@` that is not the
/// first character; an empty version is none.
pub open spec fn spec_parts(spec: Seq<char>) -> (Seq<char>, Option<Seq<char>>) {
    match text::last_index(spec, '@') {
        Some(i) => if i > 0 {
            (
                spec.take(i),
                if i + 1 == spec.len() {
                    None
                } else {
                    Some(spec.skip(i + 1))
                },
            )
        } else {
            (spec, None)
        },
        None => (spec, None),
    }
}

/// Splits a package spec of the form `[@scope/]name[@version]`.
#[must_use]
pub fn parse_package_spec(spec: &str) -> (r: (String, Option<String>))
    ensures
        (r.0@, text::opt(r.1)) == spec_parts(spec@),
{
    let v = text::chars_of(spec);
    match text::find_last(&v, '@') {
        Some(i) => {
            if i > 0 {
                let name = text::string_of(&v, 0, i);
                assert(name@ =~= spec@.take(i as int));
                if i == v.len() - 1 {
                    (name, None)
                } else {
                    let version = text::string_of(&v, i + 1, v.len());
                    assert(version@ =~= spec@.skip(i + 1));
                    (name, Some(version))
                }
            } else {
                (spec.to_owned(), None)
            }
        },
        None => (spec.to_owned(), None),
    }
}

// ---------------------------------------------------------------------------
// Names
// ---------------------------------------------------------------------------

/// npm's limit on the length of a name, in bytes.
pub const MAX_NAME_LEN: usize = 214;

/// A character that may stand in a name segment or a dist-tag.
pub open spec fn is_name_char(c: char) -> bool {
    text::is_ascii_alnum(c) || c == '-' || c == '.' || c == '_'
}

pub open spec fn all_name_chars(s: Seq<char>) -> bool {
    forall|i: int| 0 <= i < s.len() ==> is_name_char(#[trigger] s[i])
}

/// What is wrong with a name segment.
pub open spec fn segment_fault(seg: Seq<char>) -> Option<Seq<char>> {
    if seg.len() == 0 {
        Some("name segment is empty"@)
    } else if seg[0] == '.' || seg[0] == '_' {
        Some("name segment must not start with '.' or '_'"@)
    } else if !all_name_chars(seg) {
        Some("name may contain only ASCII letters, digits, '-', '.', and '_'"@)
    } else {
        None
    }
}

/// What is wrong with a package name: the first rule that it violates.
pub open spec fn name_fault(name: Seq<char>) -> Option<Seq<char>> {
    if name.len() == 0 {
        Some("name is empty"@)
    } else if encode_utf8(name).len() > MAX_NAME_LEN {
        Some("name exceeds the 214-character limit"@)
    } else if name[0] == '@' {
        let rest = name.skip(1);
        if !rest.contains('/') {
            Some("scoped names must be of the form @scope/name"@)
        } else {
            let scope = text::split_on(rest, '/')[0];
            match segment_fault(scope) {
                Some(f) => Some(f),
                None => segment_fault(rest.skip((scope.len() + 1) as int)),
            }
        }
    } else if name.contains('/') {
        Some("unscoped names must not contain '/'"@)
    } else {
        segment_fault(name)
    }
}

/// The error text for a name that violates a rule.
pub open spec fn name_error(name: Seq<char>, reason: Seq<char>) -> Seq<char> {
    "invalid package name "@ + text::debug_text(name) + ": "@ + reason
}

fn reject_name(name: &str, reason: &str) -> (r: Result<(), NpxcError>)
    ensures
        r matches Err(NpxcError::Config(m)) && m@ == name_error(name@, reason@),
{
    let s = text::cat("invalid package name ", text::debug_str(name).as_str());
    let s = text::cat(s.as_str(), ": ");
    Err(NpxcError::Config(text::cat(s.as_str(), reason)))
}

fn name_char(c: char) -> (r: bool)
    ensures
        r == is_name_char(c),
{
    ('a' <= c && c <= 'z') || ('A' <= c && c <= 'Z') || ('0' <= c && c <= '9') || c == '-' || c
        == '.' || c == '_'
}

/// Whether `v[from..to]` holds name characters only.
fn name_chars(v: &Vec<char>, from: usize, to: usize) -> (r: bool)
    requires
        from <= to <= v@.len(),
    ensures
        r == all_name_chars(v@.subrange(from as int, to as int)),
{
    let ghost seg = v@.subrange(from as int, to as int);
    let mut i: usize = from;
    while i < to
        invariant
            from <= i <= to <= v@.len(),
            seg == v@.subrange(from as int, to as int),
            forall|j: int| 0 <= j < i - from ==> is_name_char(#[trigger] seg[j]),
        decreases to - i,
    {
        if !name_char(v[i]) {
            assert(!is_name_char(seg[i - from]));
            return false;
        }
        i = i + 1;
    }
    true
}

/// What is wrong with the segment `v[from..to]`.
fn check_segment(v: &Vec<char>, from: usize, to: usize) -> (r: Option<&'static str>)
    requires
        from <= to <= v@.len(),
    ensures
        match r {
            Some(f) => segment_fault(v@.subrange(from as int, to as int)) == Some(f@),
            None => segment_fault(v@.subrange(from as int, to as int)) is None,
        },
{
    if from == to {
        return Some("name segment is empty");
    }
    if v[from] == '.' || v[from] == '_' {
        return Some("name segment must not start with '.' or '_'");
    }
    if !name_chars(v, from, to) {
        return Some("name may contain only ASCII letters, digits, '-', '.', and '_'");
    }
    None
}

/// Validates an npm package name (the portion of a spec before any version).
///
/// Accepts unscoped names (`express`) and scoped names (`@scope/pkg`). The name
/// flows into the image tag and into the image build, so this also keeps shell
/// metacharacters out of both.
pub fn validate_package_name(name: &str) -> (r: Result<(), NpxcError>)
    ensures
        match r {
            Ok(_) => name_fault(name@) is None,
            Err(e) => name_fault(name@) is Some && (e matches NpxcError::Config(m) && m@
                == name_error(name@, name_fault(name@)->0)),
        },
{
    let v = text::chars_of(name);
    let n = v.len();
    if n == 0 {
        return reject_name(name, "name is empty");
    }
    if name.as_bytes().len() > MAX_NAME_LEN {
        return reject_name(name, "name exceeds the 214-character limit");
    }
    if v[0] == '@' {
        let ghost rest = name@.skip(1);
        let mut k: usize = 1;
        while k < n && v[k] != '/'
            invariant
                v@ == name@,
                n == v@.len(),
                rest == name@.skip(1),
                1 <= k <= n,
                forall|j: int| 0 <= j < k - 1 ==> rest[j] != '/',
            decreases n - k,
        {
            k = k + 1;
        }
        if k == n {
            assert(!rest.contains('/'));
            return reject_name(name, "scoped names must be of the form @scope/name");
        }
        proof {
            assert(rest[k - 1] == '/');
            assert(!rest.take(k - 1).contains('/'));
            text::split_first(rest, '/', k - 1);
            assert(rest.take(k - 1) =~= name@.subrange(1, k as int));
            assert(rest.skip(k as int) =~= name@.subrange(k + 1, n as int));
        }
        match check_segment(&v, 1, k) {
            Some(f) => return reject_name(name, f),
            None => {},
        }
        match check_segment(&v, k + 1, n) {
            Some(f) => return reject_name(name, f),
            None => {},
        }
        return Ok(());
    }
    if text::has_char(name, '/') {
        return reject_name(name, "unscoped names must not contain '/'");
    }
    assert(name@.subrange(0, n as int) =~= name@);
    match check_segment(&v, 0, n) {
        Some(f) => reject_name(name, f),
        None => Ok(()),
    }
}

// ---------------------------------------------------------------------------
// Versions
// ---------------------------------------------------------------------------

/// A character that may stand in a semver version.
pub open spec fn is_semver_char(c: char) -> bool {
    text::is_ascii_alnum(c) || c == '-' || c == '.' || c == '+'
}

/// Whether `semver::Version::parse` accepts a text.
pub uninterp spec fn semver_accepts(s: Seq<char>) -> bool;

/// `semver::Version::parse`, asked only whether it succeeds: a function of the
/// text alone. What it accepts begins with a digit and holds nothing but ASCII
/// letters, digits, `-`, `.` and `+`.
#[verifier::external_body]
fn is_semver(s: &str) -> (r: bool)
    ensures
        r == semver_accepts(s@),
        r ==> s@.len() > 0 && text::is_ascii_digit(s@[0]),
        r ==> forall|i: int| 0 <= i < s@.len() ==> is_semver_char(#[trigger] s@[i]),
{
    semver::Version::parse(s).is_ok()
}

/// A dist-tag: name characters, beginning with a letter or digit.
pub open spec fn is_dist_tag(s: Seq<char>) -> bool {
    &&& s.len() > 0
    &&& text::is_ascii_alnum(s[0])
    &&& all_name_chars(s)
}

/// The error text for a version that is neither semver nor a dist-tag.
pub open spec fn version_error(version: Seq<char>) -> Seq<char> {
    "invalid version "@ + text::debug_text(version)
        + ": expected a semver version (e.g. 1.2.3) or a dist-tag (e.g. latest); version ranges are not supported"@
}

/// Validates a version, given whether it is a semver version.
pub fn check_version(version: &str, semver: bool) -> (r: Result<(), NpxcError>)
    ensures
        match r {
            Ok(_) => semver || is_dist_tag(version@),
            Err(e) => !semver && !is_dist_tag(version@) && (e matches NpxcError::Config(m) && m@
                == version_error(version@)),
        },
{
    if semver {
        return Ok(());
    }
    let v = text::chars_of(version);
    assert(v@.subrange(0, v@.len() as int) =~= version@);
    if v.len() > 0 && (('a' <= v[0] && v[0] <= 'z') || ('A' <= v[0] && v[0] <= 'Z') || ('0' <= v[0]
        && v[0] <= '9')) && name_chars(&v, 0, v.len()) {
        return Ok(());
    }
    let s = text::cat("invalid version ", text::debug_str(version).as_str());
    Err(
        NpxcError::Config(
            text::cat(
                s.as_str(),
                ": expected a semver version (e.g. 1.2.3) or a dist-tag (e.g. latest); version ranges are not supported",
            ),
        ),
    )
}

/// Validates a resolved package version: a concrete semver version, or a dist-tag.
/// Range operators are rejected.
pub fn validate_version(version: &str) -> (r: Result<(), NpxcError>)
    ensures
        match r {
            Ok(_) => is_version(version@) && version_chars(version@),
            Err(e) => !is_version(version@) && (e matches NpxcError::Config(m) && m@
                == version_error(version@)),
        },
{
    let semver = is_semver(version);
    check_version(version, semver)
}

/// A version that may be used: semver, or a dist-tag.
pub open spec fn is_version(s: Seq<char>) -> bool {
    semver_accepts(s) || is_dist_tag(s)
}

/// Letters, digits, `-`, `.`, `_` and `+` only, beginning with a letter or digit.
pub open spec fn version_chars(s: Seq<char>) -> bool {
    &&& s.len() > 0
    &&& text::is_ascii_alnum(s[0])
    &&& forall|i: int| 0 <= i < s.len() ==> is_name_char(#[trigger] s[i]) || s[i] == '+'
}

// ---------------------------------------------------------------------------
// Laws
// ---------------------------------------------------------------------------

/// A valid name holds nothing but name characters, apart from one leading `@` and
/// one `/` in a scoped name: no space, quote, backslash or shell metacharacter.
pub proof fn valid_names_are_safe(name: Seq<char>)
    requires
        name_fault(name) is None,
    ensures
        name.len() > 0,
        forall|i: int|
            0 <= i < name.len() ==> is_name_char(#[trigger] name[i]) || (i == 0 && name[i] == '@')
                || (name[0] == '@' && name[i] == '/'),
        all_ascii(name),
{
    if name[0] == '@' {
        let rest = name.skip(1);
        let j = choose|j: int| 0 <= j < rest.len() && rest[j] == '/';
        let k = text::first_index(rest, '/');
        text::first_index_found(rest, '/', j);
        text::split_first(rest, '/', k);
        let scope = rest.take(k);
        let tail = rest.skip(k + 1);
        assert forall|i: int| 0 <= i < name.len() implies is_name_char(#[trigger] name[i]) || (i
            == 0 && name[i] == '@') || (name[0] == '@' && name[i] == '/') by {
            if i > 0 {
                assert(rest[i - 1] == name[i]);
                if i - 1 < k {
                    assert(scope[i - 1] == name[i]);
                } else if i - 1 > k {
                    assert(tail[i - 2 - k] == name[i]);
                }
            }
        }
    }
}

/// A scoped name holds exactly one `/`.
pub proof fn scoped_names_have_one_slash(name: Seq<char>, i: int, j: int)
    requires
        name_fault(name) is None,
        0 <= i < name.len(),
        0 <= j < name.len(),
        name[i] == '/',
        name[j] == '/',
    ensures
        i == j,
        name[0] == '@',
{
    if name[0] != '@' {
        assert(name.contains('/'));
    } else {
        let rest = name.skip(1);
        assert(rest[i - 1] == '/');
        let k = text::first_index(rest, '/');
        text::first_index_found(rest, '/', i - 1);
        text::split_first(rest, '/', k);
        let tail = rest.skip(k + 1);
        if i - 1 > k {
            assert(tail[i - 2 - k] == name[i]);
        }
        if j - 1 > k {
            assert(tail[j - 2 - k] == name[j]);
        }
        assert(rest[j - 1] == '/');
        text::first_index_found(rest, '/', j - 1);
    }
}

/// A spec without a version reads back as its own name.
pub proof fn plain_name_is_its_own_spec(name: Seq<char>)
    requires
        name_fault(name) is None,
    ensures
        spec_parts(name) == (name, None::<Seq<char>>),
{
    valid_names_are_safe(name);
    text::last_index_is_last(name, '@');
}

/// A name and a version, joined by `@`, come apart again.
pub proof fn spec_round_trip(name: Seq<char>, version: Seq<char>)
    requires
        name.len() > 0,
        version.len() > 0,
        !version.contains('@'),
    ensures
        spec_parts(name.push('@') + version) == (name, Some(version)),
{
    let spec = name.push('@') + version;
    text::last_index_at(spec, '@', name.len() as int);
    assert(spec.take(name.len() as int) =~= name);
    assert(spec.skip((name.len() + 1) as int) =~= version);
}

proof fn trimmed_start_keeps(s: Seq<char>)
    requires
        forall|i: int| 0 <= i < s.len() ==> #[trigger] s[i] != '@' && s[i] != '/',
    ensures
        ({
            let t = text::trimmed_start(s, |c: char| c == '-');
            &&& !t.contains('@')
            &&& !t.contains('/')
            &&& t.len() > 0 ==> t[0] != '-'
        }),
    decreases s.len(),
{
    if s.len() > 0 && s[0] == '-' {
        assert forall|i: int| 0 <= i < s.skip(1).len() implies #[trigger] s.skip(1)[i] != '@'
            && s.skip(1)[i] != '/' by {
            assert(s.skip(1)[i] == s[i + 1]);
        }
        trimmed_start_keeps(s.skip(1));
    }
}

/// An identifier has no `@`, no `/` and no leading dash.
pub proof fn identifiers_are_file_names(name: Seq<char>)
    ensures
        !sanitized(name).contains('@'),
        !sanitized(name).contains('/'),
        sanitized(name).len() > 0 ==> sanitized(name)[0] != '-',
{
    trimmed_start_keeps(lowered(name).map_values(|c: char| dashed(c)));
}

/// An identifier is its own identifier if it is its own lowercase, as that of every
/// ASCII name is, and as every identifier is that [`sanitize_package_name`] gives.
pub proof fn identifiers_are_stable(name: Seq<char>)
    ensures
        ({
            let id = sanitized(name);
            &&& all_ascii(name) ==> all_ascii(id) && lowered(id) == id
            &&& lowered(id) == id ==> sanitized(id) == id
        }),
{
    let lower = lowered(name);
    let mapped = lower.map_values(|c: char| dashed(c));
    let id = sanitized(name);
    trimmed_start_is_suffix(mapped);
    let k = mapped.len() - id.len();
    assert forall|i: int| 0 <= i < id.len() implies #[trigger] id[i] == dashed(id[i]) by {
        assert(id[i] == mapped[k + i]);
        assert(mapped[k + i] == dashed(lower[k + i]));
    }
    assert(id.map_values(|c: char| dashed(c)) =~= id);
    identifiers_are_file_names(name);
    if all_ascii(name) {
        assert forall|i: int| 0 <= i < id.len() implies (#[trigger] id[i]) as u32 <= 127
            && text::ascii_lower(id[i]) == id[i] by {
            assert(id[i] == mapped[k + i]);
            assert(mapped[k + i] == dashed(text::ascii_lower(name[k + i])));
            assert(name[k + i] as u32 <= 127);
        }
        assert(text::ascii_lowered(id) =~= id);
    }
}

proof fn trimmed_start_is_suffix(s: Seq<char>)
    ensures
        ({
            let t = text::trimmed_start(s, |c: char| c == '-');
            t.len() <= s.len() && t == s.skip(s.len() - t.len())
        }),
    decreases s.len(),
{
    if s.len() > 0 && s[0] == '-' {
        trimmed_start_is_suffix(s.skip(1));
        let t = text::trimmed_start(s, |c: char| c == '-');
        assert(s.skip(1).skip(s.len() - 1 - t.len()) =~= s.skip(s.len() - t.len()));
    } else {
        assert(s.skip(0) =~= s);
    }
}

/// Whether a character is an ASCII letter, a digit, a dash, a dot or an underscore.
pub open spec fn is_plain_char(c: char) -> bool {
    ||| 'a' <= c && c <= 'z'
    ||| 'A' <= c && c <= 'Z'
    ||| '0' <= c && c <= '9'
    ||| c == '-'
    ||| c == '.'
    ||| c == '_'
}

/// Whether a text may stand as a segment of a name: it is not empty, begins with
/// neither a dot nor an underscore, and holds plain characters only.
pub open spec fn is_segment(s: Seq<char>) -> bool {
    &&& s.len() > 0
    &&& s[0] != '.'
    &&& s[0] != '_'
    &&& forall|i: int| 0 <= i < s.len() ==> is_plain_char(#[trigger] s[i])
}

proof fn segments_have_no_fault(s: Seq<char>)
    ensures
        segment_fault(s) is None <==> is_segment(s),
{
    if is_segment(s) {
        assert forall|i: int| 0 <= i < s.len() implies is_name_char(#[trigger] s[i]) by {
            assert(is_plain_char(s[i]));
        }
    }
    if segment_fault(s) is None {
        assert forall|i: int| 0 <= i < s.len() implies is_plain_char(#[trigger] s[i]) by {
            assert(is_name_char(s[i]));
        }
    }
}

proof fn plain_names_are_ascii(name: Seq<char>)
    requires
        forall|i: int|
            0 <= i < name.len() ==> is_plain_char(#[trigger] name[i]) || name[i] == '@' || name[i]
                == '/',
    ensures
        encode_utf8(name).len() == name.len(),
{
    assert forall|i: int| 0 <= i < name.len() implies '\0' <= #[trigger] name[i]
        && name[i] <= '\u{7f}' by {
        assert(is_plain_char(name[i]) || name[i] == '@' || name[i] == '/');
    }
    assert(is_ascii_chars(name));
    is_ascii_chars_encode_utf8(name);
}

/// A name without `@` in front is valid exactly where it is one segment of at most 214
/// characters.
pub proof fn unscoped_names_are_segments(name: Seq<char>)
    requires
        name.len() == 0 || name[0] != '@',
    ensures
        name_fault(name) is None <==> is_segment(name) && name.len() <= 214,
{
    segments_have_no_fault(name);
    if is_segment(name) {
        assert forall|i: int|
            0 <= i < name.len() implies is_plain_char(#[trigger] name[i]) || name[i] == '@'
            || name[i] == '/' by {}
        plain_names_are_ascii(name);
        assert(!name.contains('/')) by {
            assert forall|i: int| 0 <= i < name.len() implies name[i] != '/' by {
                assert(is_plain_char(name[i]));
            }
        }
    }
    if name_fault(name) is None {
        assert(is_segment(name));
        assert forall|i: int|
            0 <= i < name.len() implies is_plain_char(#[trigger] name[i]) || name[i] == '@'
            || name[i] == '/' by {}
        plain_names_are_ascii(name);
    }
}

/// A scoped name is valid exactly where its scope and what follows the first slash are
/// segments, and it has at most 214 characters; without a slash it is not.
pub proof fn scoped_names_are_two_segments(scope: Seq<char>, package: Seq<char>)
    requires
        !scope.contains('/'),
    ensures
        name_fault(seq!['@'] + scope + seq!['/'] + package) is None <==> is_segment(scope)
            && is_segment(package) && scope.len() + package.len() + 2 <= 214,
        name_fault(seq!['@'] + scope) is Some,
{
    let name = seq!['@'] + scope + seq!['/'] + package;
    let rest = name.skip(1);
    let k = scope.len() as int;
    assert(rest =~= scope + seq!['/'] + package);
    assert(rest[k] == '/');
    assert(rest.contains('/'));
    assert(rest.take(k) =~= scope);
    text::split_first(rest, '/', k);
    assert(rest.skip(k + 1) =~= package);
    segments_have_no_fault(scope);
    segments_have_no_fault(package);
    if is_segment(scope) && is_segment(package) {
        assert forall|i: int|
            0 <= i < name.len() implies is_plain_char(#[trigger] name[i]) || name[i] == '@'
            || name[i] == '/' by {
            if 1 <= i < k + 1 {
                assert(name[i] == scope[i - 1]);
            } else if i > k + 1 {
                assert(name[i] == package[i - k - 2]);
            }
        }
        plain_names_are_ascii(name);
    }
    let bare = seq!['@'] + scope;
    assert(bare.skip(1) =~= scope);
}

/// A dist-tag begins with a letter or digit and holds plain characters only; what is
/// neither that nor a semver version is no version. So no range operator gets through.
pub proof fn versions_are_semver_or_tags(s: Seq<char>)
    ensures
        is_version(s) <==> semver_accepts(s) || (s.len() > 0 && is_plain_char(s[0]) && s[0] != '-'
            && s[0] != '.' && s[0] != '_' && forall|i: int|
            0 <= i < s.len() ==> is_plain_char(#[trigger] s[i])),
{
    if is_dist_tag(s) {
        assert forall|i: int| 0 <= i < s.len() implies is_plain_char(#[trigger] s[i]) by {
            assert(is_name_char(s[i]));
        }
    }
    if s.len() > 0 && is_plain_char(s[0]) && s[0] != '-' && s[0] != '.' && s[0] != '_'
        && forall|i: int| 0 <= i < s.len() ==> is_plain_char(#[trigger] s[i]) {
        assert forall|i: int| 0 <= i < s.len() implies is_name_char(#[trigger] s[i]) by {
            assert(is_plain_char(s[i]));
        }
    }
}

/// A spec is cut at its last `@`, the first character aside: what has none there is
/// all name, and nothing after it is no version.
pub proof fn specs_are_cut_at_the_last_at(name: Seq<char>, version: Seq<char>)
    ensures
        (forall|i: int| 1 <= i < name.len() ==> name[i] != '@') ==> spec_parts(name) == (
            name,
            None::<Seq<char>>,
        ),
        name.len() > 0 ==> spec_parts(name.push('@')) == (name, None::<Seq<char>>),
        name.len() > 0 && version.len() > 0 && !version.contains('@') ==> spec_parts(
            name.push('@') + version,
        ) == (name, Some(version)),
{
    text::last_index_is_last(name, '@');
    let spec = name.push('@');
    text::last_index_at(spec, '@', name.len() as int);
    assert(spec.take(name.len() as int) =~= name);
    if name.len() > 0 && version.len() > 0 && !version.contains('@') {
        spec_round_trip(name, version);
    }
}

proof fn trimmed_start_none(s: Seq<char>)
    requires
        s.len() == 0 || s[0] != '-',
    ensures
        text::trimmed_start(s, |c: char| c == '-') == s,
{
}

/// The identifier of an ASCII name is the name in lowercase, and of a scoped one the
/// scope and the package with a dash between them.
pub proof fn identifiers_spell_their_names(scope: Seq<char>, package: Seq<char>)
    requires
        is_segment(scope),
        is_segment(package),
        scope[0] != '-',
        package[0] != '-',
    ensures
        sanitized(package) == text::ascii_lowered(package),
        sanitized(seq!['@'] + scope + seq!['/'] + package) == text::ascii_lowered(scope) + seq!['-']
            + text::ascii_lowered(package),
{
    let f = |c: char| dashed(c);
    assert forall|i: int| 0 <= i < package.len() implies (#[trigger] package[i]) as u32 <= 127 by {
        assert(is_plain_char(package[i]));
    }
    let low = text::ascii_lowered(package);
    assert(lowered(package) == low);
    assert(low.map_values(f) =~= low) by {
        assert forall|i: int| 0 <= i < low.len() implies dashed(low[i]) == low[i] by {
            assert(is_plain_char(package[i]));
        }
    }
    assert(is_plain_char(package[0]));
    trimmed_start_none(low);
    let name = seq!['@'] + scope + seq!['/'] + package;
    let k = scope.len() as int;
    assert forall|i: int| 0 <= i < name.len() implies (#[trigger] name[i]) as u32 <= 127 by {
        if 1 <= i < k + 1 {
            assert(name[i] == scope[i - 1]);
            assert(is_plain_char(scope[i - 1]));
        } else if i > k + 1 {
            assert(name[i] == package[i - k - 2]);
        }
    }
    let part = text::ascii_lowered(scope);
    let rest = part + seq!['-'] + low;
    let mapped = lowered(name).map_values(f);
    assert(mapped =~= seq!['-'] + rest) by {
        assert forall|i: int| 0 <= i < name.len() implies mapped[i] == (seq!['-'] + rest)[i] by {
            if 1 <= i < k + 1 {
                assert(is_plain_char(scope[i - 1]));
                assert(name[i] == scope[i - 1]);
            } else if i > k + 1 {
                assert(is_plain_char(package[i - k - 2]));
                assert(name[i] == package[i - k - 2]);
            }
        }
    }
    assert(mapped.skip(1) =~= rest);
    assert(is_plain_char(scope[0]));
    assert(rest[0] != '-');
    trimmed_start_none(rest);
}

/// What is said of a name that is not valid is the first thing that is wrong with it:
/// that it is empty, too long, scoped without a package, unscoped with a slash; or that a
/// segment is empty, begins with a dot or an underscore, or holds another character.
pub proof fn names_are_told_what_is_wrong(name: Seq<char>, i: int)
    ensures
        name.len() == 0 ==> name_fault(name) == Some("name is empty"@),
        name.len() > 0 && encode_utf8(name).len() > 214 ==> name_fault(name) == Some(
            "name exceeds the 214-character limit"@,
        ),
        name.len() > 0 && encode_utf8(name).len() <= 214 && name[0] == '@' && !name.contains('/')
            ==> name_fault(name) == Some("scoped names must be of the form @scope/name"@),
        name.len() > 0 && encode_utf8(name).len() <= 214 && name[0] != '@' && name.contains('/')
            ==> name_fault(name) == Some("unscoped names must not contain '/'"@),
        name.len() > 0 && encode_utf8(name).len() <= 214 && name[0] != '@' && !name.contains('/')
            && (name[0] == '.' || name[0] == '_') ==> name_fault(name) == Some(
            "name segment must not start with '.' or '_'"@,
        ),
        name.len() > 0 && encode_utf8(name).len() <= 214 && name[0] != '@' && !name.contains('/')
            && name[0] != '.' && name[0] != '_' && 0 <= i < name.len() && !is_plain_char(name[i])
            ==> name_fault(name) == Some(
            "name may contain only ASCII letters, digits, '-', '.', and '_'"@,
        ),
{
    if name.len() > 0 && name[0] == '@' && !name.contains('/') {
        let rest = name.skip(1);
        assert forall|j: int| 0 <= j < rest.len() implies rest[j] != '/' by {
            assert(rest[j] == name[j + 1]);
        }
    }
    if 0 <= i < name.len() && !is_plain_char(name[i]) {
        assert(!is_name_char(name[i]));
        assert(!all_name_chars(name));
    }
}

} // verus!
