//! From a package spec and loaded settings to the settings of one invocation.
use vstd::prelude::*;
use vstd::utf8::*;

use super::global::NpxcConfig;
use super::merge;
use super::merge::{EffectiveConfig, NetworkPolicy, NetworkView};
use super::names;
use super::package::PackageConfig;
use crate::error::NpxcError;
use crate::paths::host;
use crate::paths::host::HostPath;
use crate::text;
use crate::tunnel::policy;

verus! {

// ---------------------------------------------------------------------------
// Where settings live
// ---------------------------------------------------------------------------

/// An XDG base directory: the value of its variable if that is an absolute path,
/// else `fallback`.
pub open spec fn base_dir(xdg: Option<Seq<u8>>, fallback: Seq<u8>) -> Seq<u8> {
    match xdg {
        Some(d) => if host::is_absolute_path(d) {
            d
        } else {
            fallback
        },
        None => fallback,
    }
}

pub open spec fn opt_path(p: Option<&HostPath>) -> Option<Seq<u8>> {
    match p {
        Some(h) => Some(h@),
        None => None,
    }
}

/// The path `name` below `base`.
pub open spec fn below(base: Seq<u8>, name: Seq<char>) -> Seq<u8> {
    host::joined(base, encode_utf8(name))
}

/// The default configuration directory.
pub open spec fn default_config_dir(xdg: Option<Seq<u8>>, home: Option<Seq<u8>>) -> Seq<u8> {
    let home = match home {
        Some(h) => h,
        None => encode_utf8("~"@),
    };
    below(base_dir(xdg, below(home, ".config"@)), "npxc"@)
}

/// The configuration directory: that of the file named on the command line, else
/// `$XDG_CONFIG_HOME/npxc`, else `~/.config/npxc`.
pub fn config_dir(
    config_override: Option<&HostPath>,
    xdg_config_home: Option<&HostPath>,
    home: Option<&HostPath>,
) -> (r: Result<HostPath, NpxcError>)
    ensures
        match (config_override, r) {
            (Some(p), Ok(d)) => host::parent_of(p@) == Some(d@),
            (Some(p), Err(e)) => host::parent_of(p@) is None && (e matches NpxcError::Config(m)
                && m@ == "Config path has no parent directory: "@ + text::lossy_text(p@)),
            (None, Ok(d)) => d@ == default_config_dir(opt_path(xdg_config_home), opt_path(home)),
            (None, Err(_)) => false,
        },
{
    match config_override {
        Some(p) => match p.parent() {
            Some(d) => Ok(d),
            None => Err(
                NpxcError::Config(
                    text::cat("Config path has no parent directory: ", p.lossy().as_str()),
                ),
            ),
        },
        None => {
            let home = match home {
                Some(h) => h.clone(),
                None => HostPath::from_text("~"),
            };
            let fallback = home.join_text(".config");
            let base = match xdg_config_home {
                Some(d) => if d.is_absolute() {
                    d.clone()
                } else {
                    fallback
                },
                None => fallback,
            };
            Ok(base.join_text("npxc"))
        },
    }
}

/// The data directory: `$XDG_DATA_HOME/npxc`, else `~/.local/share/npxc`.
pub fn data_dir(xdg_data_home: Option<&HostPath>, home: Option<&HostPath>) -> (r: Result<
    HostPath,
    NpxcError,
>)
    ensures
        match r {
            Ok(d) => match opt_path(home) {
                Some(h) => d@ == below(
                    base_dir(opt_path(xdg_data_home), below(below(h, ".local"@), "share"@)),
                    "npxc"@,
                ),
                None => opt_path(xdg_data_home) is Some && host::is_absolute_path(
                    opt_path(xdg_data_home)->0,
                ) && d@ == below(opt_path(xdg_data_home)->0, "npxc"@),
            },
            Err(e) => home is None && (opt_path(xdg_data_home) matches Some(x)
                ==> !host::is_absolute_path(x)) && (e matches NpxcError::Config(m) && m@
                == "cannot determine platform data directory"@),
        },
{
    match xdg_data_home {
        Some(d) => if d.is_absolute() {
            return Ok(d.join_text("npxc"));
        },
        None => {},
    }
    match home {
        Some(h) => {
            let base = h.join_text(".local");
            let base = base.join_text("share");
            Ok(base.join_text("npxc"))
        },
        None => Err(NpxcError::Config("cannot determine platform data directory".to_owned())),
    }
}

/// The path of a package's settings: `<config_dir>/packages/<identifier>.toml`.
pub open spec fn package_file(name: Seq<char>, config_dir: Seq<u8>) -> Seq<u8> {
    below(below(config_dir, "packages"@), names::sanitized(name) + ".toml"@)
}

/// The path of a package's settings.
#[must_use]
pub fn package_config_path(pkg_name: &str, config_dir: &HostPath) -> (r: HostPath)
    ensures
        r@ == package_file(pkg_name@, config_dir@),
{
    let id = names::sanitize_package_name(pkg_name);
    let file = text::cat(id.as_str(), ".toml");
    let dir = config_dir.join_text("packages");
    dir.join_text(file.as_str())
}

// ---------------------------------------------------------------------------
// Pinning
// ---------------------------------------------------------------------------

/// `after` is `before` but for its version.
pub open spec fn only_version_differs(before: PackageConfig, after: PackageConfig) -> bool {
    &&& after.package == before.package
    &&& after.path_arguments == before.path_arguments
    &&& after.non_path_arguments == before.non_path_arguments
    &&& after.runtime == before.runtime
    &&& after.env == before.env
    &&& after.env_passthrough == before.env_passthrough
    &&& after.storage == before.storage
    &&& after.mounts == before.mounts
    &&& after.network == before.network
}

/// Settings that hold nothing but the package's name.
pub open spec fn is_fresh(c: PackageConfig, name: Seq<char>) -> bool {
    &&& text::opt(c.package) == Some(name)
    &&& c.path_arguments.order().len() == 0
    &&& c.non_path_arguments.order().len() == 0
    &&& c.runtime is None
    &&& c.env.order().len() == 0
    &&& c.env_passthrough@.len() == 0
    &&& c.storage is None
    &&& c.mounts@.len() == 0
    &&& c.network is None
}

/// The settings `r` record `version` and are otherwise the existing ones, or fresh.
pub open spec fn pins(
    r: PackageConfig,
    name: Seq<char>,
    version: Seq<char>,
    existing: Option<PackageConfig>,
) -> bool {
    &&& text::opt(r.version) == Some(version)
    &&& match existing {
        Some(c) => only_version_differs(c, r),
        None => is_fresh(r, name),
    }
}

/// The existing settings already record `version`.
pub open spec fn is_pinned(existing: Option<PackageConfig>, version: Seq<char>) -> bool {
    existing matches Some(c) && text::opt(c.version) == Some(version)
}

/// The settings to write in order to pin `version`: the existing ones, or fresh
/// ones that record the package's name, with the version set.
pub fn pin_package_version(pkg_name: &str, version: &str, existing: Option<PackageConfig>) -> (r:
    PackageConfig)
    ensures
        pins(r, pkg_name@, version@, existing),
{
    match existing {
        Some(c) => {
            let mut config = c;
            config.version = Some(version.to_owned());
            config
        },
        None => {
            let mut config = PackageConfig::default();
            config.package = Some(pkg_name.to_owned());
            config.version = Some(version.to_owned());
            config
        },
    }
}

/// The settings to write so that `version` is pinned, or `None` where it already
/// is and nothing needs writing.
pub fn ensure_version_pinned(pkg_name: &str, version: &str, existing: Option<PackageConfig>) -> (r:
    Option<PackageConfig>)
    ensures
        r is None <==> is_pinned(existing, version@),
        r matches Some(c) ==> pins(c, pkg_name@, version@, existing),
{
    let pinned = match &existing {
        Some(c) => match &c.version {
            Some(v) => text::str_eq(v.as_str(), version),
            None => false,
        },
        None => false,
    };
    if pinned {
        None
    } else {
        Some(pin_package_version(pkg_name, version, existing))
    }
}

/// Pinning what was just pinned writes nothing.
pub proof fn pinning_twice_is_pinning_once(
    name: Seq<char>,
    version: Seq<char>,
    existing: Option<PackageConfig>,
    written: PackageConfig,
)
    requires
        pins(written, name, version, existing),
    ensures
        is_pinned(Some(written), version),
{
}

// ---------------------------------------------------------------------------
// Resolution
// ---------------------------------------------------------------------------

/// The error text for a workspace mount mode other than `ro` and `rw`.
pub open spec fn mount_mode_error(mode: Seq<char>) -> Seq<char> {
    "invalid mount_mode "@ + text::debug_text(mode) + ": expected \"ro\" or \"rw\""@
}

pub open spec fn is_mount_mode(mode: Seq<char>) -> bool {
    mode == "ro"@ || mode == "rw"@
}

/// The allow entries of a policy.
pub open spec fn allow_entries(p: NetworkView) -> Seq<Seq<char>> {
    match p {
        NetworkView::Allowlist(allow) => allow,
        _ => Seq::empty(),
    }
}

/// Checks the runtime fields of combined settings: the mount mode, which becomes
/// part of the workspace mount, and the allow entries, so that a misspelled one
/// surfaces before a container starts.
pub fn validate_runtime(effective: &EffectiveConfig) -> (r: Result<(), NpxcError>)
    ensures
        match r {
            Ok(_) => is_mount_mode(effective.mount_mode@) && policy::all_readable(
                allow_entries(effective.network@),
            ),
            Err(e) => if is_mount_mode(effective.mount_mode@) {
                policy::reports_first(e, allow_entries(effective.network@))
            } else {
                e matches NpxcError::Config(m) && m@ == mount_mode_error(effective.mount_mode@)
            },
        },
{
    if !text::str_eq(effective.mount_mode.as_str(), "ro") && !text::str_eq(
        effective.mount_mode.as_str(),
        "rw",
    ) {
        let s = text::cat(
            "invalid mount_mode ",
            text::debug_str(effective.mount_mode.as_str()).as_str(),
        );
        return Err(NpxcError::Config(text::cat(s.as_str(), ": expected \"ro\" or \"rw\"")));
    }
    match &effective.network {
        NetworkPolicy::Allowlist { allow } => policy::validate(allow),
        _ => Ok(()),
    }
}

/// The version to use: that of the spec, else the pinned one, else `latest`.
pub open spec fn chosen_version(from_spec: Option<Seq<char>>, pinned: Option<Seq<char>>) -> Seq<
    char,
> {
    match from_spec {
        Some(v) => v,
        None => match pinned {
            Some(v) => v,
            None => "latest"@,
        },
    }
}

/// The version pinned in package settings.
pub open spec fn pinned_version(pkg: Option<&PackageConfig>) -> Option<Seq<char>> {
    match pkg {
        Some(p) => text::opt(p.version),
        None => None,
    }
}

/// The settings that a resolution yields, or the first thing that is wrong: with
/// the name, the mount mode, the allow entries or the version, in that order.
pub open spec fn resolution(
    r: Result<(EffectiveConfig, String, String), NpxcError>,
    spec: Seq<char>,
    global: NpxcConfig,
    pkg: Option<&PackageConfig>,
) -> bool {
    let (name, from_spec) = names::spec_parts(spec);
    let version = chosen_version(from_spec, pinned_version(pkg));
    let mode = global.defaults.mount_mode@;
    let allow = allow_entries(merge::resolved_network(pkg, global.defaults.network@));
    match r {
        Ok((effective, n, v)) => {
            &&& names::name_fault(name) is None
            &&& is_mount_mode(mode)
            &&& policy::all_readable(allow)
            &&& names::is_version(version)
            &&& merge::is_merge(effective, global, pkg)
            &&& n@ == name
            &&& v@ == version
            &&& names::version_chars(version)
        },
        Err(e) => if names::name_fault(name) is Some {
            e matches NpxcError::Config(m) && m@ == names::name_error(
                name,
                names::name_fault(name)->0,
            )
        } else if !is_mount_mode(mode) {
            e matches NpxcError::Config(m) && m@ == mount_mode_error(mode)
        } else if !policy::all_readable(allow) {
            policy::reports_first(e, allow)
        } else {
            !names::is_version(version) && (e matches NpxcError::Config(m) && m@
                == names::version_error(version))
        },
    }
}

/// Resolves the configuration for a package spec, given the global settings and
/// those of the package, if it has any.
///
/// The version comes from the spec, else from the package settings, else it is
/// `latest`. Returns the settings, the package name and the version.
pub fn resolve_config(
    pkg_spec: &str,
    global: &NpxcConfig,
    pkg_config: Option<&PackageConfig>,
) -> (r: Result<(EffectiveConfig, String, String), NpxcError>)
    ensures
        resolution(r, pkg_spec@, *global, pkg_config),
{
    let (pkg_name, version_from_spec) = names::parse_package_spec(pkg_spec);
    match names::validate_package_name(pkg_name.as_str()) {
        Ok(_) => {},
        Err(e) => return Err(e),
    }
    let effective = merge::merge(global, pkg_config);
    match validate_runtime(&effective) {
        Ok(_) => {},
        Err(e) => return Err(e),
    }
    let version = match version_from_spec {
        Some(v) => v,
        None => match &effective.version {
            Some(v) => v.clone(),
            None => "latest".to_owned(),
        },
    };
    match names::validate_version(version.as_str()) {
        Ok(_) => {},
        Err(e) => return Err(e),
    }
    Ok((effective, pkg_name, version))
}

// ---------------------------------------------------------------------------
// Laws
// ---------------------------------------------------------------------------

/// The settings of a package, whatever its name, lie directly in the directory of
/// package settings.
pub proof fn package_files_stay_in_their_directory(name: Seq<char>, config_dir: Seq<u8>)
    ensures
        host::parent_of(package_file(name, config_dir)) == Some(below(config_dir, "packages"@)),
{
    let id = names::sanitized(name);
    let file = id + ".toml"@;
    let dir = below(config_dir, "packages"@);
    reveal_strlit(".toml");
    reveal_strlit("packages");
    names::identifiers_are_file_names(name);
    assert forall|i: int| 0 <= i < file.len() implies file[i] != '/' by {
        if i < id.len() {
            assert(file[i] == id[i]);
        }
    }
    host::encoding_adds_no_separator(file);
    host::encoding_appends(id, ".toml"@);
    is_ascii_chars_encode_utf8(".toml"@);
    is_ascii_chars_encode_utf8("packages"@);
    assert(encode_utf8(file).last() == encode_utf8(".toml"@)[4]);
    assert(".toml"@[4] == 'l');
    assert(encode_utf8("packages"@)[0] == 'p' as u8);
    assert(dir.last() == encode_utf8("packages"@)[7]);
    assert("packages"@[7] == 's');
    host::files_lie_in_their_directory(dir, encode_utf8(file));
}

/// Where settings are kept: below `$XDG_CONFIG_HOME` where that is an absolute path,
/// else below `.config` in the home directory.
pub proof fn settings_are_kept_where_xdg_says(xdg: Seq<u8>, home: Seq<u8>)
    requires
        xdg.len() > 0,
        xdg[0] == 47u8,
        xdg.last() != 47u8,
        home.len() > 0,
        home.last() != 47u8,
    ensures
        default_config_dir(Some(xdg), Some(home)) == xdg + seq![47u8] + encode_utf8("npxc"@),
        default_config_dir(Some(xdg), None) == xdg + seq![47u8] + encode_utf8("npxc"@),
        default_config_dir(None, Some(home)) == home + seq![47u8] + encode_utf8(".config"@)
            + seq![47u8] + encode_utf8("npxc"@),
        forall|rel: Seq<u8>|
            rel.len() == 0 || rel[0] != 47u8 ==> #[trigger] default_config_dir(Some(rel), Some(home))
                == default_config_dir(None, Some(home)),
{
    reveal_strlit("npxc");
    reveal_strlit(".config");
    host::encoding_begins_with("npxc"@);
    host::encoding_begins_with(".config"@);
    is_ascii_chars_encode_utf8(".config"@);
    assert(encode_utf8(".config"@)[6] == 'g' as u8);
    let dot = home.push(47u8) + encode_utf8(".config"@);
    assert(dot.last() == encode_utf8(".config"@).last());
    assert(home.push(47u8) =~= home + seq![47u8]);
    assert(xdg.push(47u8) =~= xdg + seq![47u8]);
    assert(dot.push(47u8) =~= dot + seq![47u8]);
}

/// Pinning a version changes nothing but the version; without settings it makes some
/// that hold the package's name and the version and nothing else.
pub proof fn pinning_changes_the_version_alone(
    r: PackageConfig,
    name: Seq<char>,
    version: Seq<char>,
    existing: Option<PackageConfig>,
)
    requires
        pins(r, name, version, existing),
    ensures
        r.version matches Some(v) && v@ == version,
        existing matches Some(c) ==> r.package == c.package && r.path_arguments
            == c.path_arguments && r.non_path_arguments == c.non_path_arguments && r.runtime
            == c.runtime && r.env == c.env && r.env_passthrough == c.env_passthrough && r.storage
            == c.storage && r.mounts == c.mounts && r.network == c.network,
        existing is None ==> (r.package matches Some(p) && p@ == name)
            && r.path_arguments.order().len() == 0 && r.non_path_arguments.order().len() == 0
            && r.runtime is None && r.env.order().len() == 0 && r.env_passthrough@.len() == 0
            && r.storage is None && r.mounts@.len() == 0 && r.network is None,
{
}

/// Nothing is written exactly where the settings have the version already.
pub proof fn pinned_versions_are_recognized(existing: Option<PackageConfig>, version: Seq<char>)
    ensures
        is_pinned(existing, version) <==> existing is Some && existing->0.version is Some
            && existing->0.version->0@ == version,
{
}

/// What a spec with a version resolves to, whatever version is pinned: the name and the
/// version that it spells, with the settings combined.
pub proof fn specs_choose_their_version(
    r: Result<(EffectiveConfig, String, String), NpxcError>,
    name: Seq<char>,
    version: Seq<char>,
    global: NpxcConfig,
    pkg: Option<&PackageConfig>,
)
    requires
        name.len() > 0,
        version.len() > 0,
        !version.contains('@'),
        resolution(r, name.push('@') + version, global, pkg),
        r is Ok,
    ensures
        ({
            let (effective, n, v) = r->Ok_0;
            n@ == name && v@ == version && merge::is_merge(effective, global, pkg)
        }),
{
    names::specs_are_cut_at_the_last_at(name, version);
}

/// What a spec without a version resolves to: the version that is pinned, else
/// `latest`.
pub proof fn pinned_versions_are_chosen(
    r: Result<(EffectiveConfig, String, String), NpxcError>,
    name: Seq<char>,
    global: NpxcConfig,
    pkg: Option<&PackageConfig>,
)
    requires
        forall|i: int| 1 <= i < name.len() ==> name[i] != '@',
        resolution(r, name, global, pkg),
        r is Ok,
    ensures
        ({
            let (effective, n, v) = r->Ok_0;
            &&& n@ == name
            &&& pkg is Some && pkg->0.version is Some ==> v@ == (pkg->0.version->0)@
            &&& pkg is None || pkg->0.version is None ==> v@ == "latest"@
            &&& merge::is_merge(effective, global, pkg)
        }),
{
    names::specs_are_cut_at_the_last_at(name, name);
}

/// A resolution succeeds exactly where the name is valid, the mount mode is `ro` or
/// `rw`, every allow entry of an allowlist can be read, and the version is one.
pub proof fn resolutions_succeed_on_valid_settings(
    r: Result<(EffectiveConfig, String, String), NpxcError>,
    name: Seq<char>,
    version: Seq<char>,
    global: NpxcConfig,
    pkg: Option<&PackageConfig>,
)
    requires
        name.len() > 0,
        version.len() > 0,
        !version.contains('@'),
        resolution(r, name.push('@') + version, global, pkg),
    ensures
        r is Ok ==> names::name_fault(name) is None && names::is_version(version) && (
        global.defaults.mount_mode@ == "ro"@ || global.defaults.mount_mode@ == "rw"@),
        r is Err && !(pkg matches Some(p) && p.network is Some) ==> names::name_fault(name) is Some
            || !names::is_version(version) || (global.defaults.mount_mode@ != "ro"@
            && global.defaults.mount_mode@ != "rw"@),
        (pkg matches Some(p) && (p.network matches Some(nc) && nc.mode@ == "allowlist"@)) && r is Ok
            ==> policy::all_readable(text::texts(pkg->0.network->0.allow@)),
        (pkg matches Some(p) && (p.network matches Some(nc) && nc.mode@ == "allowlist"@
            && !policy::all_readable(text::texts(nc.allow@)))) ==> r is Err,
{
    names::specs_are_cut_at_the_last_at(name, version);
    if r is Err && !(pkg matches Some(p) && p.network is Some) {
        let allow = allow_entries(merge::resolved_network(pkg, global.defaults.network@));
        assert(allow.len() == 0);
    }
}

/// The settings of a package stand in a file of the package's own: its identifier, with
/// the ending of TOML.
pub proof fn packages_have_their_own_files(name: Seq<char>, config_dir: Seq<u8>)
    ensures
        host::file_name_of(package_file(name, config_dir)) == Some(
            encode_utf8(names::sanitized(name) + ".toml"@),
        ),
{
    let id = names::sanitized(name);
    let file = id + ".toml"@;
    let dir = below(config_dir, "packages"@);
    reveal_strlit(".toml");
    reveal_strlit("packages");
    names::identifiers_are_file_names(name);
    assert forall|i: int| 0 <= i < file.len() implies file[i] != '/' by {
        if i < id.len() {
            assert(file[i] == id[i]);
        }
    }
    host::encoding_adds_no_separator(file);
    host::encoding_appends(id, ".toml"@);
    is_ascii_chars_encode_utf8(".toml"@);
    is_ascii_chars_encode_utf8("packages"@);
    assert(encode_utf8(file).last() == encode_utf8(".toml"@)[4]);
    assert(".toml"@[4] == 'l');
    assert(encode_utf8("packages"@)[0] == 'p' as u8);
    assert(dir.last() == encode_utf8("packages"@)[7]);
    assert("packages"@[7] == 's');
    host::files_have_their_names(dir, encode_utf8(file));
}

} // verus!
