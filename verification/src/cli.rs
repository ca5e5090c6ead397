//! The commands of the command line, as plain values.

use vstd::prelude::*;

verus! {

/// A command line: one command.
pub struct CsCli {
    pub command: CsCommands,
}

/// The commands, with their arguments.
pub enum CsCommands {
    /// Create a new Csound project (or module, with `module_flag`).
    Init { global: bool, name: String, module_flag: bool, project_flag: bool },
    /// Add dependencies (`name` or `name@version`) to the project.
    Add { module: Vec<String>, force: bool },
    /// Install modules globally, without a manifest.
    Install { module: Vec<String>, force: bool },
    /// Uninstall globally installed modules.
    Uninstall { module: Vec<String>, force: bool },
    /// Upgrade global modules (all of them when none is given).
    Upgrade { module: Option<Vec<String>>, force: bool },
    /// Reinstall dependencies of the project.
    Reinstall { module: Vec<String>, force: bool },
    /// Remove dependencies from the project.
    Remove { module: Vec<String>, force: bool },
    /// Update the project's dependencies (all of them when none is given).
    Update { module: Option<Vec<String>>, force: bool },
    /// Clean or list the module cache.
    Cache { clean: bool, list: bool },
    /// Compare the project's dependencies with the registry.
    Sync,
    /// Build the project from its manifest, or from its lock file.
    Build { global: bool, from_lock: bool },
    /// Check a module before it is published.
    Publish,
    /// Run the project with Csound.
    Run { csoptions: Vec<String> },
    /// Check the manifest and repair the project.
    Validate,
    /// Install plugins with Risset.
    Risset { rstoptions: Vec<String> },
    /// Show what the registry says of a module.
    Search { module: String },
    /// Show the version of cspm.
    Version,
}

} // verus!
