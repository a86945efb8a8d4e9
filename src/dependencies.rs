use vstd::prelude::*;

verus! {

/// What to do about a workspace's plugin dependencies.
#[derive(Debug, Clone, Copy, PartialEq, Eq, Structural)]
pub enum InstallPlan {
    /// The workspace has no plugins directory.
    NoPlugins,
    /// The plugins directory lists no requirements.
    NoRequirements,
    /// Install the listed requirements into the workspace's library directory.
    Install,
}

/// Decides how a workspace's plugin requirements are installed.
pub struct DependencyChecker;

/// The package installers to try, in order, on Windows or elsewhere.
pub open spec fn installer_names(windows: bool) -> Seq<Seq<char>> {
    if windows { seq!["pip.exe"@, "pip3.exe"@] } else { seq!["pip3"@, "pip"@] }
}

/// The installer arguments that put the requirements listed in
/// `requirements` into `lib_dir`, upgrading what is there.
pub open spec fn install_argv(lib_dir: Seq<char>, requirements: Seq<char>) -> Seq<Seq<char>> {
    seq!["install"@, "-t"@, lib_dir, "-r"@, requirements, "--upgrade"@]
}

impl DependencyChecker {
    /// Install only where the workspace has a plugins directory that lists
    /// requirements.
    pub fn install_plan(plugins_dir_exists: bool, requirements_exist: bool) -> (r: InstallPlan)
        ensures
            r == if !plugins_dir_exists {
                InstallPlan::NoPlugins
            } else if !requirements_exist {
                InstallPlan::NoRequirements
            } else {
                InstallPlan::Install
            },
    {
        if !plugins_dir_exists {
            InstallPlan::NoPlugins
        } else if !requirements_exist {
            InstallPlan::NoRequirements
        } else {
            InstallPlan::Install
        }
    }

    /// Whether the requirements must be installed again: they exist but the
    /// library directory does not.
    pub fn needs_update(requirements_exist: bool, lib_dir_exists: bool) -> (r: bool)
        ensures
            r == (requirements_exist && !lib_dir_exists),
    {
        if !requirements_exist {
            return false;
        }
        if !lib_dir_exists {
            return true;
        }
        false
    }

    /// The executable names under which the installer is looked for, in the
    /// order they are tried.
    pub fn installer_candidates(windows: bool) -> (r: Vec<String>)
        ensures
            crate::table::texts(r@) == installer_names(windows),
    {
        let mut r: Vec<String> = Vec::new();
        if windows {
            r.push(String::from_str("pip.exe"));
            r.push(String::from_str("pip3.exe"));
        } else {
            r.push(String::from_str("pip3"));
            r.push(String::from_str("pip"));
        }
        proof {
            assert(crate::table::texts(r@) =~= installer_names(windows));
        }
        r
    }

    /// The installer arguments for the requirements file `requirements` and
    /// the target directory `lib_dir`.
    pub fn install_args(lib_dir: &str, requirements: &str) -> (r: Vec<String>)
        ensures
            crate::table::texts(r@) == install_argv(lib_dir@, requirements@),
    {
        let mut r: Vec<String> = Vec::new();
        r.push(String::from_str("install"));
        r.push(String::from_str("-t"));
        r.push(lib_dir.to_owned());
        r.push(String::from_str("-r"));
        r.push(requirements.to_owned());
        r.push(String::from_str("--upgrade"));
        proof {
            assert(crate::table::texts(r@) =~= install_argv(lib_dir@, requirements@));
        }
        r
    }
}

} // verus!
