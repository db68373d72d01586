//! Consistency tooling for a workspace of packages that are released together:
//! version bumps that propagate through the dependency graph, local-path
//! overlays for remote dependencies, and a ranked health report.
//!
//! The library works on plain values: the texts of manifests and of the
//! overlay document go in, and what is to be written comes back. Reading and
//! writing files, running tools and probing repositories is left to the
//! caller.

pub mod cargo;
pub mod checks;
pub mod consistency;
pub mod consistency_laws;
pub mod document;
pub mod health;
pub mod lines;
pub mod manifest_laws;
pub mod overlay;
pub mod overlay_laws;
pub mod patch;
pub mod prerelease;
pub mod propagation;
pub mod semantic_version;
pub mod text;
pub mod version;
pub mod workspace;

pub use cargo::{CargoManifest, Dependency, DependencyType, ManifestError};
pub use consistency::{VersionInconsistency, VersionReport};
pub use health::{
    GitStatus, HealthCheckResult, HealthCheckType, HealthChecker, HealthReport, HealthStatus,
};
pub use overlay::{PatchConfig, PatchError};
pub use patch::{GitDependency, PatchManager, PatchReport, ResetReport};
pub use semantic_version::{BumpType, SemVer, VersionError};
pub use version::{BumpOutcome, VersionChange, VersionManager, WorkspaceError};
pub use workspace::{SourceFile, WorkspaceScanner};
