//! Images: their tags, and the commands that build, list and remove them.
use vstd::prelude::*;

use super::command;
use super::command::Outcome;
use crate::config::merge::EffectiveConfig;
use crate::config::names;
use crate::error::NpxcError;
use crate::rpc::message;
use crate::text;

verus! {

/// The `boringtun-cli` version compiled into the WireGuard base image.
pub open spec fn boringtun_version() -> Seq<char> {
    "0.7.1"@
}

/// The tag of a package's image: `npxc/<identifier>:<version>`.
pub open spec fn image_tag_of(name: Seq<char>, version: Seq<char>) -> Seq<char> {
    "npxc/"@ + names::sanitized(name) + ":"@ + version
}

/// The tag of the WireGuard base image. It holds the version, so that another
/// version is another image.
pub open spec fn wg_base_tag_text() -> Seq<char> {
    "npxc/wg-base:"@ + boringtun_version()
}

/// The tag of a package's image.
#[must_use]
pub fn image_tag(pkg_name: &str, version: &str) -> (r: String)
    ensures
        r@ == image_tag_of(pkg_name@, version@),
{
    let s = text::cat("npxc/", names::sanitize_package_name(pkg_name).as_str());
    let s = text::cat(s.as_str(), ":");
    text::cat(s.as_str(), version)
}

/// The tag of the WireGuard base image.
#[must_use]
pub fn wg_base_tag() -> (r: String)
    ensures
        r@ == wg_base_tag_text(),
{
    text::cat("npxc/wg-base:", "0.7.1")
}

// ---------------------------------------------------------------------------
// Building
// ---------------------------------------------------------------------------

/// The arguments that ask whether an image exists.
pub fn image_exists_args(tag: &str) -> (r: Vec<String>)
    ensures
        text::texts(r@) == seq!["image"@, "inspect"@, tag@],
{
    let mut r: Vec<String> = Vec::new();
    text::push_text(&mut r, "image");
    text::push_text(&mut r, "inspect");
    text::push_text(&mut r, tag);
    assert(text::texts(r@) =~= seq!["image"@, "inspect"@, tag@]);
    r
}

/// Whether an image exists, by what came of asking.
pub fn image_exists(container_cli: &str, outcome: &Outcome) -> (r: Result<bool, NpxcError>)
    ensures
        match outcome {
            Outcome::Exited(_) => r == Ok::<bool, NpxcError>(outcome.ok()),
            Outcome::NotStarted(e) => r matches Err(NpxcError::RuntimeNotAvailable(m)) && m@
                == command::not_started(container_cli@, e@),
        },
{
    match outcome {
        Outcome::Exited(_) => Ok(outcome.success()),
        Outcome::NotStarted(e) => Err(command::spawn_error(container_cli, e.as_str())),
    }
}

/// The Dockerfile of a package image: the template with the base image put in.
pub fn dockerfile(template: &str) -> (r: String)
    ensures
        r@ == text::replaced(template@, "__NPXC_WG_BASE_IMAGE__"@, wg_base_tag_text()),
{
    text::replace(template, "__NPXC_WG_BASE_IMAGE__", wg_base_tag().as_str())
}

/// The arguments that build a package image.
pub open spec fn build_args_of(
    name: Seq<char>,
    version: Seq<char>,
    node_image: Seq<char>,
    dockerfile: Seq<char>,
    context: Seq<char>,
    force: bool,
) -> Seq<Seq<char>> {
    seq![
        "build"@,
        "--platform"@,
        "linux/arm64"@,
        "--build-arg"@,
        "PACKAGE_SPEC="@ + name + "@"@ + version,
        "--build-arg"@,
        "NODE_IMAGE="@ + node_image,
        "-t"@,
        image_tag_of(name, version),
        "-f"@,
        dockerfile,
    ] + (if force {
        seq!["--no-cache"@]
    } else {
        Seq::empty()
    }) + seq![context]
}

/// The arguments that build a package image. A forced build uses no cache.
pub fn build_args(
    pkg_name: &str,
    version: &str,
    config: &EffectiveConfig,
    dockerfile: &str,
    context: &str,
    force_rebuild: bool,
) -> (r: Vec<String>)
    ensures
        text::texts(r@) == build_args_of(
            pkg_name@,
            version@,
            config.node_image@,
            dockerfile@,
            context@,
            force_rebuild,
        ),
{
    let s = text::cat("PACKAGE_SPEC=", pkg_name);
    let s = text::cat(s.as_str(), "@");
    let package_spec = text::cat(s.as_str(), version);
    let node_image = text::cat("NODE_IMAGE=", config.node_image.as_str());
    let tag = image_tag(pkg_name, version);
    let mut r: Vec<String> = Vec::new();
    text::push_text(&mut r, "build");
    text::push_text(&mut r, "--platform");
    text::push_text(&mut r, "linux/arm64");
    text::push_text(&mut r, "--build-arg");
    text::push_text(&mut r, package_spec.as_str());
    text::push_text(&mut r, "--build-arg");
    text::push_text(&mut r, node_image.as_str());
    text::push_text(&mut r, "-t");
    text::push_text(&mut r, tag.as_str());
    text::push_text(&mut r, "-f");
    text::push_text(&mut r, dockerfile);
    if force_rebuild {
        text::push_text(&mut r, "--no-cache");
    }
    text::push_text(&mut r, context);
    assert(text::texts(r@) =~= build_args_of(
        pkg_name@,
        version@,
        config.node_image@,
        dockerfile@,
        context@,
        force_rebuild,
    ));
    r
}

/// The arguments that build the WireGuard base image.
pub fn wg_base_args(dockerfile: &str, context: &str) -> (r: Vec<String>)
    ensures
        text::texts(r@) == seq![
            "build"@,
            "--platform"@,
            "linux/arm64"@,
            "--build-arg"@,
            "BORINGTUN_VERSION="@ + boringtun_version(),
            "-t"@,
            wg_base_tag_text(),
            "-f"@,
            dockerfile@,
            context@,
        ],
{
    let version = text::cat("BORINGTUN_VERSION=", "0.7.1");
    let tag = wg_base_tag();
    let mut r: Vec<String> = Vec::new();
    text::push_text(&mut r, "build");
    text::push_text(&mut r, "--platform");
    text::push_text(&mut r, "linux/arm64");
    text::push_text(&mut r, "--build-arg");
    text::push_text(&mut r, version.as_str());
    text::push_text(&mut r, "-t");
    text::push_text(&mut r, tag.as_str());
    text::push_text(&mut r, "-f");
    text::push_text(&mut r, dockerfile);
    text::push_text(&mut r, context);
    assert(text::texts(r@) =~= seq![
        "build"@,
        "--platform"@,
        "linux/arm64"@,
        "--build-arg"@,
        "BORINGTUN_VERSION="@ + boringtun_version(),
        "-t"@,
        wg_base_tag_text(),
        "-f"@,
        dockerfile@,
        context@,
    ]);
    r
}

/// What came of a build.
pub fn build_image(container_cli: &str, outcome: &Outcome) -> (r: Result<(), NpxcError>)
    ensures
        match outcome {
            Outcome::NotStarted(e) => r matches Err(NpxcError::RuntimeNotAvailable(m)) && m@
                == command::not_started(container_cli@, e@),
            Outcome::Exited(code) => if outcome.ok() {
                r is Ok
            } else {
                r matches Err(NpxcError::BuildFailed { code: c }) && c == code
            },
        },
{
    match outcome {
        Outcome::NotStarted(e) => Err(command::spawn_error(container_cli, e.as_str())),
        Outcome::Exited(code) => if outcome.success() {
            Ok(())
        } else {
            Err(NpxcError::BuildFailed { code: *code })
        },
    }
}

/// The commands that stop and delete the builder after a build, in order.
pub fn builder_cleanup() -> (r: Vec<Vec<String>>)
    ensures
        r@.len() == 2,
        text::texts(r@[0]@) == seq!["builder"@, "stop"@],
        text::texts(r@[1]@) == seq!["builder"@, "delete"@, "--force"@],
{
    let mut stop: Vec<String> = Vec::new();
    text::push_text(&mut stop, "builder");
    text::push_text(&mut stop, "stop");
    assert(text::texts(stop@) =~= seq!["builder"@, "stop"@]);
    let mut delete: Vec<String> = Vec::new();
    text::push_text(&mut delete, "builder");
    text::push_text(&mut delete, "delete");
    text::push_text(&mut delete, "--force");
    assert(text::texts(delete@) =~= seq!["builder"@, "delete"@, "--force"@]);
    let mut r: Vec<Vec<String>> = Vec::new();
    r.push(stop);
    r.push(delete);
    r
}

/// A step of providing the image of a package.
#[derive(Debug)]
pub enum ImageStep {
    /// Ask whether the image exists.
    FindImage,
    /// Ask whether the base image exists.
    FindBase,
    /// Build the base image.
    BuildBase,
    /// Build the image.
    BuildPackage,
    /// The image is there, or this is why not.
    Finished(Result<(), NpxcError>),
}

/// The first step of providing an image: it is looked for, unless a rebuild is
/// forced.
pub fn ensure_image(force_rebuild: bool) -> (r: ImageStep)
    ensures
        r == (if force_rebuild {
            ImageStep::FindBase
        } else {
            ImageStep::FindImage
        }),
{
    if force_rebuild {
        ImageStep::FindBase
    } else {
        ImageStep::FindImage
    }
}

/// Whether `step` fails because its command could not be started.
pub open spec fn is_spawn_failure(step: ImageStep, cli: Seq<char>, e: Seq<char>) -> bool {
    step matches ImageStep::Finished(Err(NpxcError::RuntimeNotAvailable(m))) && m@
        == command::not_started(cli, e)
}

/// Whether `after` follows `before` when its command came to `outcome`.
pub open spec fn follows(
    before: ImageStep,
    cli: Seq<char>,
    outcome: Outcome,
    after: ImageStep,
) -> bool {
    match outcome {
        Outcome::NotStarted(e) => is_spawn_failure(after, cli, e@),
        Outcome::Exited(code) => match before {
            ImageStep::FindImage => if outcome.ok() {
                after == ImageStep::Finished(Ok::<(), NpxcError>(()))
            } else {
                after is FindBase
            },
            ImageStep::FindBase => if outcome.ok() {
                after is BuildPackage
            } else {
                after is BuildBase
            },
            ImageStep::BuildBase => if outcome.ok() {
                after is BuildPackage
            } else {
                after matches ImageStep::Finished(Err(NpxcError::BuildFailed { code: c })) && c
                    == code
            },
            ImageStep::BuildPackage => if outcome.ok() {
                after == ImageStep::Finished(Ok::<(), NpxcError>(()))
            } else {
                after matches ImageStep::Finished(Err(NpxcError::BuildFailed { code: c })) && c
                    == code
            },
            ImageStep::Finished(_) => true,
        },
    }
}

/// Whether a step builds an image.
pub open spec fn is_build(step: ImageStep) -> bool {
    step is BuildBase || step is BuildPackage
}

/// What follows a step whose command came to `outcome`, and whether the builder is
/// to be cleaned up first: it is after every build that ran, well or badly, so that
/// no builder lingers.
pub fn next_image_step(step: &ImageStep, container_cli: &str, outcome: &Outcome) -> (r: (
    bool,
    ImageStep,
))
    requires
        !(step is Finished),
    ensures
        r.0 == (is_build(*step) && outcome is Exited),
        follows(*step, container_cli@, *outcome, r.1),
{
    match step {
        ImageStep::FindImage => match image_exists(container_cli, outcome) {
            Ok(exists) => if exists {
                (false, ImageStep::Finished(Ok(())))
            } else {
                (false, ImageStep::FindBase)
            },
            Err(e) => (false, ImageStep::Finished(Err(e))),
        },
        ImageStep::FindBase => match image_exists(container_cli, outcome) {
            Ok(exists) => if exists {
                (false, ImageStep::BuildPackage)
            } else {
                (false, ImageStep::BuildBase)
            },
            Err(e) => (false, ImageStep::Finished(Err(e))),
        },
        ImageStep::BuildBase => match build_image(container_cli, outcome) {
            Ok(_) => (true, ImageStep::BuildPackage),
            Err(e) => (outcome.ran(), ImageStep::Finished(Err(e))),
        },
        _ => match build_image(container_cli, outcome) {
            Ok(_) => (true, ImageStep::Finished(Ok(()))),
            Err(e) => (outcome.ran(), ImageStep::Finished(Err(e))),
        },
    }
}

// ---------------------------------------------------------------------------
// Listing
// ---------------------------------------------------------------------------

/// One record of `image list`; the rest of it does not matter.
#[derive(Debug)]
pub struct ContainerImage {
    pub reference: String,
}

/// The references of the images.
pub open spec fn references(images: Seq<ContainerImage>) -> Seq<Seq<char>> {
    images.map_values(|image: ContainerImage| image.reference@)
}

/// Whether a reference is that of a package image: the base image is not one.
pub open spec fn is_package_image(reference: Seq<char>) -> bool {
    &&& "npxc/"@.is_prefix_of(reference)
    &&& !"npxc/wg-base:"@.is_prefix_of(reference)
}

/// The repository and tag of a reference, parted at its last colon.
pub open spec fn repo_and_tag(reference: Seq<char>) -> Option<(Seq<char>, Seq<char>)> {
    match text::last_index(reference, ':') {
        Some(i) => Some((reference.take(i), reference.skip(i + 1))),
        None => None,
    }
}

/// The package images among the first `k` references.
pub open spec fn package_images(references: Seq<Seq<char>>, k: nat) -> Seq<(Seq<char>, Seq<char>)>
    decreases k,
{
    if k == 0 {
        Seq::empty()
    } else {
        let before = package_images(references, (k - 1) as nat);
        match repo_and_tag(references[k - 1]) {
            Some(pair) => if is_package_image(references[k - 1]) {
                before.push(pair)
            } else {
                before
            },
            None => before,
        }
    }
}

/// The arguments that list the images.
pub fn list_args() -> (r: Vec<String>)
    ensures
        text::texts(r@) == seq!["image"@, "list"@, "--format"@, "json"@],
{
    let mut r: Vec<String> = Vec::new();
    text::push_text(&mut r, "image");
    text::push_text(&mut r, "list");
    text::push_text(&mut r, "--format");
    text::push_text(&mut r, "json");
    assert(text::texts(r@) =~= seq!["image"@, "list"@, "--format"@, "json"@]);
    r
}

/// The package images among all images.
fn filter_images(images: &Vec<ContainerImage>) -> (r: Vec<(String, String)>)
    ensures
        message::pair_views(r@) == package_images(references(images@), images@.len()),
{
    let ghost all = references(images@);
    let mut r: Vec<(String, String)> = Vec::new();
    assert(message::pair_views(r@) =~= Seq::empty());
    let mut i: usize = 0;
    while i < images.len()
        invariant
            all == references(images@),
            i <= images@.len(),
            message::pair_views(r@) == package_images(all, i as nat),
        decreases images@.len() - i,
    {
        let ghost before = message::pair_views(r@);
        let reference = images[i].reference.as_str();
        assert(all[i as int] == reference@);
        if text::has_prefix(reference, "npxc/") && !text::has_prefix(reference, "npxc/wg-base:") {
            let v = text::chars_of(reference);
            match text::find_last(&v, ':') {
                Some(k) => {
                    let n = v.len();
                    let repo = text::string_of(&v, 0, k);
                    let tag = text::string_of(&v, k + 1, n);
                    assert(repo@ =~= reference@.take(k as int));
                    assert(tag@ =~= reference@.skip(k + 1));
                    r.push((repo, tag));
                    assert(message::pair_views(r@) =~= before.push((repo@, tag@)));
                },
                None => {},
            }
        }
        i = i + 1;
    }
    r
}

/// Whether `r` is what came of listing the images.
pub open spec fn is_listing(
    r: Result<Vec<(String, String)>, NpxcError>,
    cli: Seq<char>,
    outcome: Outcome,
    listed: Result<Vec<ContainerImage>, String>,
    stderr: Seq<u8>,
) -> bool {
    match outcome {
        Outcome::NotStarted(e) => r matches Err(NpxcError::RuntimeNotAvailable(m)) && m@
            == command::not_started(cli, e@),
        Outcome::Exited(_) => if !outcome.ok() {
            r matches Err(NpxcError::Runtime(m)) && m@ == command::failed_text(
                cli,
                "image list"@,
                stderr,
            )
        } else {
            match listed {
                Ok(images) => r matches Ok(l) && message::pair_views(l@) == package_images(
                    references(images@),
                    images@.len(),
                ),
                Err(t) => r matches Err(NpxcError::Json(m)) && m@ == t@,
            }
        },
    }
}

/// The package images that `image list` printed, as pairs of repository and tag, given
/// its output read as records, or the text of the error. The internal base image is left out, so that it is neither listed nor removed
/// with the packages.
pub fn list_images(
    container_cli: &str,
    outcome: &Outcome,
    listed: &Result<Vec<ContainerImage>, String>,
    stderr: &[u8],
) -> (r: Result<Vec<(String, String)>, NpxcError>)
    ensures
        is_listing(r, container_cli@, *outcome, *listed, stderr@),
{
    match outcome {
        Outcome::NotStarted(e) => return Err(command::spawn_error(container_cli, e.as_str())),
        Outcome::Exited(_) => {},
    }
    if !outcome.success() {
        return Err(command::command_error(container_cli, "image list", stderr));
    }
    match listed {
        Ok(images) => Ok(filter_images(images)),
        Err(m) => Err(NpxcError::Json(m.clone())),
    }
}

// ---------------------------------------------------------------------------
// Removal
// ---------------------------------------------------------------------------

/// The arguments that remove an image.
pub fn remove_args(tag: &str) -> (r: Vec<String>)
    ensures
        text::texts(r@) == seq!["image"@, "rm"@, tag@],
{
    let mut r: Vec<String> = Vec::new();
    text::push_text(&mut r, "image");
    text::push_text(&mut r, "rm");
    text::push_text(&mut r, tag);
    assert(text::texts(r@) =~= seq!["image"@, "rm"@, tag@]);
    r
}

/// What came of removing an image.
pub fn remove_image(container_cli: &str, tag: &str, outcome: &Outcome) -> (r: Result<(), NpxcError>)
    ensures
        match outcome {
            Outcome::NotStarted(e) => r matches Err(NpxcError::RuntimeNotAvailable(m)) && m@
                == command::not_started(container_cli@, e@),
            Outcome::Exited(code) => if outcome.ok() {
                r is Ok
            } else {
                r matches Err(NpxcError::Runtime(m)) && m@ == "failed to remove image '"@ + tag@
                    + "' (exit code: "@ + command::debug_code(*code) + ")"@
            },
        },
{
    match outcome {
        Outcome::NotStarted(e) => Err(command::spawn_error(container_cli, e.as_str())),
        Outcome::Exited(code) => if outcome.success() {
            Ok(())
        } else {
            let s = text::cat("failed to remove image '", tag);
            let s = text::cat(s.as_str(), "' (exit code: ");
            let s = text::cat(s.as_str(), command::code_text(*code).as_str());
            Err(NpxcError::Runtime(text::cat(s.as_str(), ")")))
        },
    }
}

// ---------------------------------------------------------------------------
// Laws
// ---------------------------------------------------------------------------

/// How many steps of providing an image can still follow.
pub open spec fn steps_left(step: ImageStep) -> nat {
    match step {
        ImageStep::FindImage => 4,
        ImageStep::FindBase => 3,
        ImageStep::BuildBase => 2,
        ImageStep::BuildPackage => 1,
        ImageStep::Finished(_) => 0,
    }
}

/// Providing an image comes to an end: every step brings it nearer.
pub proof fn providing_an_image_ends(
    before: ImageStep,
    cli: Seq<char>,
    outcome: Outcome,
    after: ImageStep,
)
    requires
        !(before is Finished),
        follows(before, cli, outcome, after),
    ensures
        steps_left(after) < steps_left(before),
{
}

/// An image that exists is not built again, unless a rebuild is forced; and no
/// package image is built before the base image is there.
pub proof fn builds_are_needed(
    before: ImageStep,
    cli: Seq<char>,
    outcome: Outcome,
    after: ImageStep,
)
    requires
        !(before is Finished),
        follows(before, cli, outcome, after),
    ensures
        before is FindImage && outcome.ok() ==> after matches ImageStep::Finished(Ok(_)),
        after is BuildPackage ==> outcome.ok() && (before is FindBase || before is BuildBase),
        after is BuildBase ==> before is FindBase && !outcome.ok(),
{
}

/// The images of packages are listed as package images, under their own tags: the
/// repository is `npxc/` and the package's identifier, the tag is the version. This
/// is so for versions without a colon, which valid versions are, unless the package
/// is called like the base image.
pub proof fn package_images_are_listed(name: Seq<char>, version: Seq<char>)
    requires
        !version.contains(':'),
        names::sanitized(name) != "wg-base"@,
        !names::sanitized(name).contains(':'),
    ensures
        is_package_image(image_tag_of(name, version)),
        repo_and_tag(image_tag_of(name, version)) == Some(
            ("npxc/"@ + names::sanitized(name), version),
        ),
{
    reveal_strlit("npxc/");
    reveal_strlit(":");
    reveal_strlit("npxc/wg-base:");
    reveal_strlit("wg-base");
    let id = names::sanitized(name);
    let tag = image_tag_of(name, version);
    let repo = "npxc/"@ + id;
    let n = repo.len() as int;
    assert(tag =~= repo.push(':') + version);
    assert(tag.subrange(0, 5) =~= "npxc/"@);
    assert forall|j: int| n < j < tag.len() implies tag[j] != ':' by {
        assert(tag[j] == version[j - n - 1]);
    }
    text::last_index_at(tag, ':', n);
    assert(tag.take(n) =~= repo);
    assert(tag.skip(n + 1) =~= version);
    if "npxc/wg-base:"@.is_prefix_of(tag) {
        let p = "npxc/wg-base:"@;
        assert forall|i: int| 0 <= i < 13 implies tag[i] == p[i] by {
            assert(tag.subrange(0, 13)[i] == p[i]);
        }
        assert(p.len() == 13);
        if id.len() < 7 {
            assert(tag[n] == ':');
            assert(p[n] != ':');
        } else {
            if id.len() > 7 {
                assert(tag[12] == id[7]);
                assert(id[7] == ':');
                assert(id.contains(':'));
            }
            assert forall|i: int| 0 <= i < 7 implies id[i] == "wg-base"@[i] by {
                assert(tag[i + 5] == id[i]);
            }
            assert(id =~= "wg-base"@);
        }
    }
}

/// The base image is never taken for a package image.
pub proof fn base_image_is_no_package()
    ensures
        !is_package_image(wg_base_tag_text()),
{
    let p = "npxc/wg-base:"@;
    assert(wg_base_tag_text().subrange(0, p.len() as int) =~= p);
}

proof fn package_images_hold(references: Seq<Seq<char>>, k: nat, e: (Seq<char>, Seq<char>))
    requires
        k <= references.len(),
    ensures
        package_images(references, k).contains(e) <==> exists|i: int|
            0 <= i < k && is_package_image(#[trigger] references[i]) && repo_and_tag(references[i])
                == Some(e),
    decreases k,
{
    if k > 0 {
        let n = (k - 1) as nat;
        package_images_hold(references, n, e);
        let before = package_images(references, n);
        let after = package_images(references, k);
        if before.contains(e) {
            let i = choose|i: int| 0 <= i < before.len() && before[i] == e;
            assert(after[i] == e);
        }
        if after.contains(e) && !before.contains(e) {
            let i = choose|i: int| 0 <= i < after.len() && after[i] == e;
            if i < before.len() {
                assert(before[i] == e);
            }
            assert(is_package_image(references[n as int]));
        }
        if is_package_image(references[n as int]) && repo_and_tag(references[n as int]) == Some(
            e,
        ) {
            assert(after[before.len() as int] == e);
        }
    }
}

/// The listed images are exactly those whose reference is a repository that begins with
/// `npxc/`, a colon and a tag, the base image's aside.
pub proof fn listed_images_are_package_images(
    references: Seq<Seq<char>>,
    repo: Seq<char>,
    tag: Seq<char>,
)
    requires
        !tag.contains(':'),
    ensures
        package_images(references, references.len()).contains((repo, tag)) <==> references.contains(
            repo + seq![':'] + tag,
        ) && (repo + seq![':'] + tag).len() >= 5 && (repo + seq![':'] + tag).take(5) == "npxc/"@
            && !((repo + seq![':'] + tag).len() >= 13 && (repo + seq![':'] + tag).take(13)
            == "npxc/wg-base:"@),
{
    reveal_strlit("npxc/");
    reveal_strlit("npxc/wg-base:");
    let whole = repo + seq![':'] + tag;
    let n = repo.len() as int;
    package_images_hold(references, references.len(), (repo, tag));
    assert forall|j: int| n < j < whole.len() implies whole[j] != ':' by {
        assert(whole[j] == tag[j - n - 1]);
    }
    assert(whole[n] == ':');
    text::last_index_at(whole, ':', n);
    assert(whole.take(n) =~= repo);
    assert(whole.skip(n + 1) =~= tag);
    assert(repo_and_tag(whole) == Some((repo, tag)));
    assert(whole.len() >= 5 ==> whole.take(5) =~= whole.subrange(0, 5));
    assert(whole.len() >= 13 ==> whole.take(13) =~= whole.subrange(0, 13));
    assert forall|i: int|
        0 <= i < references.len() && repo_and_tag(#[trigger] references[i]) == Some(
            (repo, tag),
        ) implies references[i] == whole by {
        let r = references[i];
        text::last_index_is_last(r, ':');
        let k = text::last_index(r, ':')->0;
        assert(r =~= r.take(k) + seq![':'] + r.skip(k + 1));
    }
    if references.contains(whole) {
        let i = choose|i: int| 0 <= i < references.len() && references[i] == whole;
        assert(repo_and_tag(references[i]) == Some((repo, tag)));
    }
}

/// A package image is built from the package and version that were asked for, on the
/// node image of the settings, under the package's own tag; a forced build uses no cache,
/// and no other build does without it.
pub proof fn builds_are_of_the_package_asked_for(
    name: Seq<char>,
    version: Seq<char>,
    node_image: Seq<char>,
    dockerfile: Seq<char>,
    context: Seq<char>,
    force: bool,
)
    ensures
        ({
            let args = build_args_of(name, version, node_image, dockerfile, context, force);
            &&& args.len() == (if force {
                13int
            } else {
                12
            })
            &&& args[0] == "build"@
            &&& args[1] == "--platform"@ && args[2] == "linux/arm64"@
            &&& args[3] == "--build-arg"@ && args[4] == "PACKAGE_SPEC="@ + name + "@"@ + version
            &&& args[5] == "--build-arg"@ && args[6] == "NODE_IMAGE="@ + node_image
            &&& args[7] == "-t"@ && args[8] == "npxc/"@ + names::sanitized(name) + ":"@ + version
            &&& args[9] == "-f"@ && args[10] == dockerfile
            &&& force ==> args[11] == "--no-cache"@
            &&& args.last() == context
        }),
{
}

/// An image is there at the end exactly where it was found, or built: nothing else
/// succeeds, a build that fails ends with its exit code, and a command that cannot be
/// started ends with the runtime not being available.
pub proof fn images_are_found_or_built(
    before: ImageStep,
    cli: Seq<char>,
    outcome: Outcome,
    after: ImageStep,
)
    requires
        !(before is Finished),
        follows(before, cli, outcome, after),
    ensures
        after matches ImageStep::Finished(Ok(_)) ==> (before is FindImage
            || before is BuildPackage) && outcome == Outcome::Exited(Some(0i32)),
        (before is FindImage || before is BuildPackage) && outcome == Outcome::Exited(Some(0i32))
            ==> after matches ImageStep::Finished(Ok(_)),
        outcome is NotStarted ==> (after matches ImageStep::Finished(Err(e))
            && e is RuntimeNotAvailable),
        (before is BuildBase || before is BuildPackage) && outcome is Exited && outcome
            != Outcome::Exited(Some(0i32)) ==> (after matches ImageStep::Finished(Err(e)) && (
        e matches NpxcError::BuildFailed { code } && code == outcome->Exited_0)),
        before is FindImage && outcome is Exited && outcome != Outcome::Exited(Some(0i32))
            ==> after is FindBase,
        before is FindBase && outcome is Exited && outcome != Outcome::Exited(Some(0i32))
            ==> after is BuildBase,
        (before is FindBase || before is BuildBase) && outcome == Outcome::Exited(Some(0i32))
            ==> after is BuildPackage,
{
}

/// Images are listed exactly where the command ended well and what it printed could be
/// read; and then an image is listed if one of the records has its reference, and it is
/// a package's.
pub proof fn listings_hold_the_package_images(
    r: Result<Vec<(String, String)>, NpxcError>,
    cli: Seq<char>,
    outcome: Outcome,
    listed: Result<Vec<ContainerImage>, String>,
    stderr: Seq<u8>,
    repo: Seq<char>,
    tag: Seq<char>,
)
    requires
        is_listing(r, cli, outcome, listed, stderr),
        !tag.contains(':'),
    ensures
        r is Ok <==> outcome == Outcome::Exited(Some(0i32)) && listed is Ok,
        outcome is NotStarted ==> (r matches Err(e) && e is RuntimeNotAvailable),
        outcome is Exited && outcome != Outcome::Exited(Some(0i32)) ==> (r matches Err(e)
            && e is Runtime),
        outcome == Outcome::Exited(Some(0i32)) && listed is Err ==> (r matches Err(e)
            && e is Json),
        r is Ok ==> (message::pair_views((r->Ok_0)@).contains((repo, tag)) <==> (exists|i: int|
            0 <= i < (listed->Ok_0)@.len() && (#[trigger] (listed->Ok_0)@[i]).reference@ == repo
                + seq![':'] + tag) && (repo + seq![':'] + tag).len() >= 5 && (repo + seq![':']
            + tag).take(5) == "npxc/"@ && !((repo + seq![':'] + tag).len() >= 13 && (repo
            + seq![':'] + tag).take(13) == "npxc/wg-base:"@)),
{
    if r is Ok {
        let images = (listed->Ok_0)@;
        let all = references(images);
        let whole = repo + seq![':'] + tag;
        listed_images_are_package_images(all, repo, tag);
        if all.contains(whole) {
            let i = choose|i: int| 0 <= i < all.len() && all[i] == whole;
            assert(images[i].reference@ == whole);
        }
        if exists|i: int| 0 <= i < images.len() && (#[trigger] images[i]).reference@ == whole {
            let i = choose|i: int| 0 <= i < images.len() && (#[trigger] images[i]).reference@
                == whole;
            assert(all[i] == whole);
        }
    }
}

} // verus!
