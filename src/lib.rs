//! Declarative operating-system image assembly: the operation catalog, the
//! phase scheduler with its conflict pass, a model of the staging tree that
//! decides each operation, the disk image rules and the kernel build
//! confirmation gate.
pub mod component;
pub mod context;
pub mod disk;
pub mod executor;
pub mod kernel;
pub mod paths;
pub mod runner;
pub mod schedule;

pub use component::{Component, ComponentKind, Installable, Op, Phase};
pub use context::{BuildContext, DistroConfig, InitSystem, PackageManager};
pub use disk::{DiskImageConfig, DiskUuids};
pub use executor::{BuildError, Staging};
pub use kernel::{KernelBuildGuard, KernelGuard, KernelInstallConfig};
