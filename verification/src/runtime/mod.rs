//! Running packages in containers: images, networks, mounts and launch plans.
pub mod command;
pub mod image;
pub mod lifecycle;
pub mod network;
pub mod session;

pub use image::image_tag;
pub use network::ManagedNetwork;
pub use session::{LaunchPlan, Mount, MountMode};
