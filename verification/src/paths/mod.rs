//! Host paths: finding them in messages, holding them to the working directory,
//! and publishing the files they name.
pub mod host;
pub mod identify;
pub mod publish;
pub mod state;
pub mod validate;

pub use host::HostPath;
pub use identify::identify_path_args;
pub use publish::{publish_file, PublicationCache, PublicationKey, PublishedFile};
pub use state::SessionState;
pub use validate::validate_path;
