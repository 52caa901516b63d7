//! Reconciliation of two catalogs of source patches: the catalog data model,
//! content identity of patch files, the catalog algebra (subtract, union,
//! version-range reconciliation), the transpose of records between catalogs,
//! and the repository plumbing that surrounds a synchronisation run.
//!
//! Reading and writing catalog files, hashing files on disk and running
//! subprocesses are left to the caller; the functions here compute on plain
//! values.

pub mod algebra;
pub mod catalog;
pub mod identity;
pub mod text;
pub mod version_control;

pub use algebra::{
    filter_patches_by_platform, filter_patches_by_tag, new_patches, PatchTemporalDiff,
};
pub use catalog::{CatalogView, PatchCollection, PatchDictSchema, PatchSpec, VersionRange};
pub use identity::hash_from_patch;
pub use text::{join_path, terminate_json};
pub use version_control::{
    RepoSetupContext, Tool, UploadPlan, VcsCommand, ANDROID_LLVM_REL_PATH,
    CHROMIUMOS_OVERLAY_REL_PATH,
};
