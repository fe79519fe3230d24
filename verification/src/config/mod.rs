//! Configuration: package specs, where settings live, and how they combine.
pub mod global;
pub mod merge;
pub mod names;
pub mod package;
pub mod resolve;

pub use global::NpxcConfig;
pub use merge::{EffectiveConfig, NetworkPolicy};
pub use names::{
    parse_package_spec, sanitize_package_name, validate_package_name, validate_version,
};
pub use package::PackageConfig;
pub use resolve::{
    config_dir, ensure_version_pinned, package_config_path, pin_package_version, resolve_config,
};
