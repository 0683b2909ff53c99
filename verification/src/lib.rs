//! Verified core of a build-artifact sweeper.
//!
//! The library works on a point-in-time snapshot of a directory tree
//! (`fs_model`): it classifies directories as known project roots by their
//! marker files (`built_project`), measures each classified build-output
//! subtree (aggregate size in megabytes, most recent direct-child
//! modification time), collects one record per match in a depth-bounded scan
//! (`scan`), and filters, sorts, and summarizes the records (`report`).
//! Reading the filesystem into a snapshot, printing, and deleting are left to
//! the surrounding binary.
pub mod built_project;
pub mod fs_model;
pub mod report;
pub mod scan;

pub use built_project::BuiltProject;
pub use fs_model::DirTree;
pub use fs_model::FileEntry;
pub use scan::RootEntry;
pub use scan::ScanError;
