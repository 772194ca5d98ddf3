//! Actions the front end can trigger: adding packages, switching tabs,
//! refreshing data, and the like. Each action is a plain value handed from
//! the interface to the code that performs it.

use vstd::prelude::*;

use crate::state::Tab;

verus! {

/// Action to switch between tabs in the main window.
#[derive(Clone, Copy, Debug, PartialEq, Eq, Structural)]
pub struct SwitchTab {
    /// The tab to show.
    pub tab: Tab,
}

/// Action to search for packages.
#[derive(Clone, Debug, PartialEq)]
pub struct SearchPackages {
    /// The search query.
    pub query: String,
}

/// Action to add a package to the project.
#[derive(Clone, Debug, PartialEq)]
pub struct AddPackage {
    /// The package name.
    pub name: String,
    /// The version to add, if pinned.
    pub version: Option<String>,
    /// Whether to add it as a development dependency.
    pub dev: bool,
}

/// Action to remove a package from the project.
#[derive(Clone, Debug, PartialEq)]
pub struct RemovePackage {
    /// The package name.
    pub name: String,
}

/// Action to refresh the package list.
#[derive(Clone, Debug, PartialEq)]
pub struct RefreshPackages;

/// Action to open a project directory.
#[derive(Clone, Debug, PartialEq)]
pub struct OpenProject {
    /// The directory to open; the current one when absent.
    pub path: Option<String>,
}

/// Action to create a new virtual environment.
#[derive(Clone, Debug, PartialEq)]
pub struct CreateEnvironment {
    /// The environment name.
    pub name: String,
    /// The Python version to seed it with, if chosen.
    pub python_version: Option<String>,
}

/// Action to delete a virtual environment.
#[derive(Clone, Debug, PartialEq)]
pub struct DeleteEnvironment {
    /// The environment's path.
    pub path: String,
}

/// Action to activate a virtual environment.
#[derive(Clone, Debug, PartialEq)]
pub struct ActivateEnvironment {
    /// The environment's path.
    pub path: String,
}

/// Action to install a Python version.
#[derive(Clone, Debug, PartialEq)]
pub struct InstallPython {
    /// The version to install.
    pub version: String,
}

/// Action to uninstall a Python version.
#[derive(Clone, Debug, PartialEq)]
pub struct UninstallPython {
    /// The version to uninstall.
    pub version: String,
}

/// Action to set the default Python version.
#[derive(Clone, Debug, PartialEq)]
pub struct SetDefaultPython {
    /// The version to make the default.
    pub version: String,
}

/// Action to update a setting.
#[derive(Clone, Debug, PartialEq)]
pub struct UpdateSetting {
    /// The setting key.
    pub key: String,
    /// The new value.
    pub value: String,
}

/// Action to sync the project.
#[derive(Clone, Debug, PartialEq)]
pub struct SyncProject;

/// Action to lock the project dependencies.
#[derive(Clone, Debug, PartialEq)]
pub struct LockProject;

/// Action to run a command in the project context.
#[derive(Clone, Debug, PartialEq)]
pub struct RunCommand {
    /// The command to run.
    pub command: String,
    /// Its arguments.
    pub args: Vec<String>,
}

/// Action to show package details.
#[derive(Clone, Debug, PartialEq)]
pub struct ShowPackageDetails {
    /// The package name.
    pub name: String,
}

/// Action to update a package.
#[derive(Clone, Debug, PartialEq)]
pub struct UpdatePackage {
    /// The package name.
    pub name: String,
    /// The version to update to, if pinned.
    pub version: Option<String>,
}

/// Action to update all packages.
#[derive(Clone, Debug, PartialEq)]
pub struct UpdateAllPackages;

} // verus!
