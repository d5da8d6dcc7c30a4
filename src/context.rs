//! Build context and distro configuration.
use vstd::prelude::*;
use crate::kernel::KernelInstallConfig;

verus! {

/// Package manager families.
#[derive(Debug, Clone, Copy, PartialEq, Eq, Structural, Hash)]
pub enum PackageManager {
    /// RPM.
    Rpm,
    /// APK.
    Apk,
}

/// Init systems.
#[derive(Debug, Clone, Copy, PartialEq, Eq, Structural, Hash)]
pub enum InitSystem {
    Systemd,
    OpenRC,
}

impl InitSystem {
    pub open spec fn spec_name(self) -> Seq<char> {
        match self {
            InitSystem::Systemd => "systemd"@,
            InitSystem::OpenRC => "OpenRC"@,
        }
    }

    /// The display name of the init system.
    pub fn to_string(&self) -> (r: String)
        ensures
            r@ == self.spec_name(),
    {
        match self {
            InitSystem::Systemd => String::from_str("systemd"),
            InitSystem::OpenRC => String::from_str("OpenRC"),
        }
    }
}

/// Identity and boot constants of one distribution, fixed for a build.
pub trait DistroConfig: KernelInstallConfig {
    /// OS name for display.
    fn os_name(&self) -> &str;

    /// OS identifier used in paths.
    fn os_id(&self) -> &str;

    /// ISO volume label for boot device detection.
    fn iso_label(&self) -> &str;

    /// Kernel modules required for boot.
    fn boot_modules(&self) -> Vec<String>;

    /// Default shell for the system.
    fn default_shell(&self) -> &str;

    /// Init system type.
    fn init_system(&self) -> InitSystem;
}

/// The four directories of a build, given and checked by the caller, and
/// the distro configuration.
pub trait BuildContext {
    type Config: DistroConfig;

    /// The source root filesystem.
    fn source(&self) -> &str;

    /// The staging directory where the filesystem is built.
    fn staging(&self) -> &str;

    /// Base directory of the builder project.
    fn base_dir(&self) -> &str;

    /// Output directory for build artifacts.
    fn output(&self) -> &str;

    /// The distro configuration.
    fn config(&self) -> &Self::Config;
}

} // verus!
