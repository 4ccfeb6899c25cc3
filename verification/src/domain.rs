//! The things a bundle is made of and made from.

pub mod bundle;
pub mod bundle_path;
pub mod executable;
pub mod jail;
pub mod resource;

pub use bundle::Bundle;
pub use bundle_path::{BundlePath, BundlePathBuf};
pub use executable::Executable;
pub use jail::Jail;
pub use resource::Resource;
