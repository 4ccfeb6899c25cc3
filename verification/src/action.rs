//! The steps of a run of the bundler, each on a bundle.

pub mod bundle_dynamic_dependencies;
pub mod bundle_executable;
pub mod bundle_shared_object_dependencies;
pub mod compress_executable;
pub mod emit;
pub mod exclude_glob;
pub mod include_glob;
pub mod make_directory;
pub mod test;

pub use bundle_dynamic_dependencies::bundle_dynamic_dependencies;
pub use bundle_executable::bundle_executable;
pub use bundle_shared_object_dependencies::{
    bundle_shared_object_dependencies, bundle_shared_object_dependencies_noload,
};
pub use compress_executable::compress_exexcutable;
pub use emit::emit;
pub use exclude_glob::exclude_glob;
pub use include_glob::{include_glob, include_glob_noload};
pub use make_directory::make_directory;
