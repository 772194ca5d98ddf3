//! Project-specific state: a loaded Python project, its packages, virtual
//! environments, and installed Python versions.

use vstd::prelude::*;
use vstd::string::StringExecFns;

use crate::strutil::{dec_digits, u64_to_dec};

verus! {

/// State for a loaded Python project.
pub struct ProjectState {
    /// The project name.
    pub name: String,
    /// The project version.
    pub version: Option<String>,
    /// The project description.
    pub description: Option<String>,
    /// The project root directory.
    pub root: String,
    /// The path to the project manifest, if present.
    pub pyproject_path: Option<String>,
    /// The path to a requirements file, if present.
    pub requirements_path: Option<String>,
    /// Dependencies declared in the project.
    pub dependencies: Vec<Package>,
    /// Development dependencies.
    pub dev_dependencies: Vec<Package>,
    /// Optional dependencies by group.
    pub optional_dependencies: Vec<(String, Vec<Package>)>,
    /// The active virtual environment, if any.
    pub active_environment: Option<Environment>,
    /// Available virtual environments.
    pub environments: Vec<Environment>,
    /// The Python version used by the project.
    pub python_version: Option<String>,
    /// Whether the project has a lockfile.
    pub has_lockfile: bool,
    /// Whether the project is out of sync with the lockfile.
    pub needs_sync: bool,
}

impl ProjectState {
    /// An empty project state.
    pub fn empty() -> (r: ProjectState)
        ensures
            r.name@.len() == 0,
            r.root@.len() == 0,
            r.version is None,
            r.description is None,
            r.pyproject_path is None,
            r.requirements_path is None,
            r.dependencies@.len() == 0,
            r.dev_dependencies@.len() == 0,
            r.optional_dependencies@.len() == 0,
            r.active_environment is None,
            r.environments@.len() == 0,
            r.python_version is None,
            r.has_lockfile == false,
            r.needs_sync == false,
    {
        ProjectState {
            name: String::new(),
            version: None,
            description: None,
            root: String::new(),
            pyproject_path: None,
            requirements_path: None,
            dependencies: Vec::new(),
            dev_dependencies: Vec::new(),
            optional_dependencies: Vec::new(),
            active_environment: None,
            environments: Vec::new(),
            python_version: None,
            has_lockfile: false,
            needs_sync: false,
        }
    }

    /// Create a new project state rooted at a directory; everything else
    /// starts empty, so the state is not yet a valid project.
    pub fn from_path(path: String) -> (r: ProjectState)
        ensures
            r.root@ == path@,
            r.name@.len() == 0,
            r.version is None,
            r.description is None,
            r.pyproject_path is None,
            r.requirements_path is None,
            r.dependencies@.len() == 0,
            r.dev_dependencies@.len() == 0,
            r.optional_dependencies@.len() == 0,
            r.active_environment is None,
            r.environments@.len() == 0,
            r.python_version is None,
            r.has_lockfile == false,
            r.needs_sync == false,
    {
        let mut p = ProjectState::empty();
        p.root = path;
        p
    }

    /// Check if this is a valid project: it carries a manifest or a
    /// requirements file.
    pub fn is_valid(&self) -> (r: bool)
        ensures
            r == (self.pyproject_path is Some || self.requirements_path is Some),
    {
        self.pyproject_path.is_some() || self.requirements_path.is_some()
    }

    /// All dependencies: the declared ones, then the development ones.
    pub fn all_dependencies(&self) -> (r: Vec<&Package>)
        ensures
            r@.len() == self.dependencies@.len() + self.dev_dependencies@.len(),
            forall|i: int|
                0 <= i < self.dependencies@.len() ==> r@[i] == self.dependencies@[i],
            forall|i: int|
                0 <= i < self.dev_dependencies@.len() ==> r@[self.dependencies@.len() + i]
                    == self.dev_dependencies@[i],
    {
        let mut r: Vec<&Package> = Vec::new();
        let mut i: usize = 0;
        while i < self.dependencies.len()
            invariant
                i <= self.dependencies@.len(),
                r@.len() == i,
                forall|j: int| 0 <= j < i ==> r@[j] == self.dependencies@[j],
            decreases self.dependencies@.len() - i,
        {
            r.push(&self.dependencies[i]);
            i = i + 1;
        }
        let mut k: usize = 0;
        while k < self.dev_dependencies.len()
            invariant
                k <= self.dev_dependencies@.len(),
                r@.len() == self.dependencies@.len() + k,
                forall|j: int| 0 <= j < self.dependencies@.len() ==> r@[j] == self.dependencies@[j],
                forall|j: int|
                    0 <= j < k ==> r@[self.dependencies@.len() + j] == self.dev_dependencies@[j],
            decreases self.dev_dependencies@.len() - k,
        {
            r.push(&self.dev_dependencies[k]);
            k = k + 1;
        }
        r
    }

    /// The total number of dependencies, development ones included.
    pub fn dependency_count(&self) -> (r: usize)
        requires
            self.dependencies@.len() + self.dev_dependencies@.len() <= usize::MAX,
        ensures
            r == self.dependencies@.len() + self.dev_dependencies@.len(),
    {
        proof {
            vstd::std_specs::vec::axiom_spec_len(&self.dependencies);
            vstd::std_specs::vec::axiom_spec_len(&self.dev_dependencies);
        }
        self.dependencies.len() + self.dev_dependencies.len()
    }
}

/// Information about a Python package.
pub struct Package {
    /// The package name.
    pub name: String,
    /// The installed version, if installed.
    pub installed_version: Option<String>,
    /// The required version specifier.
    pub required_version: Option<String>,
    /// The latest available version.
    pub latest_version: Option<String>,
    /// Whether this is a development dependency.
    pub is_dev: bool,
    /// Whether an update is available.
    pub update_available: bool,
    /// The package description.
    pub description: Option<String>,
    /// The package homepage URL.
    pub homepage: Option<String>,
    /// The package documentation URL.
    pub documentation: Option<String>,
    /// The package repository URL.
    pub repository: Option<String>,
    /// Package authors.
    pub authors: Vec<String>,
    /// Package license.
    pub license: Option<String>,
    /// Package keywords.
    pub keywords: Vec<String>,
    /// Direct dependencies of this package.
    pub dependencies: Vec<String>,
}

impl Package {
    /// An empty package record.
    pub fn empty() -> (r: Package)
        ensures
            r.name@.len() == 0,
            r.installed_version is None,
            r.required_version is None,
            r.latest_version is None,
            r.is_dev == false,
            r.update_available == false,
            r.description is None,
            r.homepage is None,
            r.documentation is None,
            r.repository is None,
            r.authors@.len() == 0,
            r.license is None,
            r.keywords@.len() == 0,
            r.dependencies@.len() == 0,
    {
        Package {
            name: String::new(),
            installed_version: None,
            required_version: None,
            latest_version: None,
            is_dev: false,
            update_available: false,
            description: None,
            homepage: None,
            documentation: None,
            repository: None,
            authors: Vec::new(),
            license: None,
            keywords: Vec::new(),
            dependencies: Vec::new(),
        }
    }

    /// Create a new package with just a name; everything else takes its
    /// default.
    pub fn new(name: String) -> (r: Package)
        ensures
            r.name@ == name@,
            r.installed_version is None,
            r.required_version is None,
            r.latest_version is None,
            r.is_dev == false,
            r.update_available == false,
            r.description is None,
            r.homepage is None,
            r.documentation is None,
            r.repository is None,
            r.authors@.len() == 0,
            r.license is None,
            r.keywords@.len() == 0,
            r.dependencies@.len() == 0,
    {
        let mut p = Package::empty();
        p.name = name;
        p
    }

    /// Create a new package with a name and an installed version; everything
    /// else takes its default.
    pub fn with_version(name: String, version: String) -> (r: Package)
        ensures
            r.name@ == name@,
            r.installed_version matches Some(v) && v@ == version@,
            r.required_version is None,
            r.latest_version is None,
            r.is_dev == false,
            r.update_available == false,
            r.description is None,
            r.homepage is None,
            r.documentation is None,
            r.repository is None,
            r.authors@.len() == 0,
            r.license is None,
            r.keywords@.len() == 0,
            r.dependencies@.len() == 0,
    {
        let mut p = Package::empty();
        p.name = name;
        p.installed_version = Some(version);
        p
    }

    /// Check if the package is installed.
    pub fn is_installed(&self) -> (r: bool)
        ensures
            r == self.installed_version is Some,
    {
        self.installed_version.is_some()
    }

    /// Check if an update is available.
    pub fn has_update(&self) -> (r: bool)
        ensures
            r == self.update_available,
    {
        self.update_available
    }
}

/// Information about a virtual environment.
pub struct Environment {
    /// The environment name.
    pub name: String,
    /// The path to the environment.
    pub path: String,
    /// The Python version in this environment.
    pub python_version: String,
    /// Whether this environment is currently active.
    pub is_active: bool,
    /// The number of installed packages.
    pub package_count: usize,
    /// When the environment was created.
    pub created_at: Option<String>,
    /// The size of the environment on disk.
    pub size_bytes: Option<u64>,
}

/// The whole and tenths digits of a byte count against a unit, rounding the
/// tenths to nearest with ties to even.
pub open spec fn scaled_tenths(bytes: nat, unit: nat) -> (nat, nat)
    recommends
        unit > 0,
{
    let whole = bytes / unit;
    let q = (bytes % unit) * 10;
    let t0 = q / unit;
    let r2 = q % unit;
    let tenth: nat = if 2 * r2 > unit {
        t0 + 1
    } else if 2 * r2 < unit {
        t0
    } else if t0 % 2 == 0 {
        t0
    } else {
        t0 + 1
    };
    if tenth == 10 {
        ((whole + 1) as nat, 0)
    } else {
        (whole, tenth)
    }
}

/// The display rendering of a byte count scaled against a unit, to one
/// decimal place.
pub open spec fn scaled_display(bytes: nat, unit: nat, suffix: Seq<char>) -> Seq<char> {
    let (whole, tenth) = scaled_tenths(bytes, unit);
    dec_digits(whole) + seq!['.'] + dec_digits(tenth) + suffix
}

/// The display-friendly size string for an optional byte count: gibibytes,
/// mebibytes, or kibibytes to one decimal place, plain bytes below that, and
/// a fixed word where the size is unknown.
pub open spec fn size_display_spec(size_bytes: Option<u64>) -> Seq<char> {
    match size_bytes {
        Option::Some(b) => {
            if b >= 1073741824 {
                scaled_display(b as nat, 1073741824, " GB"@)
            } else if b >= 1048576 {
                scaled_display(b as nat, 1048576, " MB"@)
            } else if b >= 1024 {
                scaled_display(b as nat, 1024, " KB"@)
            } else {
                dec_digits(b as nat) + " B"@
            }
        },
        Option::None => "Unknown"@,
    }
}

impl Environment {
    /// Create a new environment.
    pub fn new(name: String, path: String) -> (r: Environment)
        ensures
            r.name@ == name@,
            r.path@ == path@,
            r.is_active == false,
            r.package_count == 0,
            r.created_at is None,
            r.size_bytes is None,
            r.python_version@.len() == 0,
    {
        Environment {
            name,
            path,
            python_version: String::new(),
            is_active: false,
            package_count: 0,
            created_at: None,
            size_bytes: None,
        }
    }

    /// Get a display-friendly size string.
    pub fn size_display(&self) -> (r: String)
        ensures
            r@ == size_display_spec(self.size_bytes),
    {
        match self.size_bytes {
            Option::Some(bytes) => {
                if bytes >= 1073741824 {
                    scaled(bytes, 1073741824, " GB")
                } else if bytes >= 1048576 {
                    scaled(bytes, 1048576, " MB")
                } else if bytes >= 1024 {
                    scaled(bytes, 1024, " KB")
                } else {
                    let mut s = u64_to_dec(bytes);
                    s.append(" B");
                    s
                }
            },
            Option::None => String::from_str("Unknown"),
        }
    }
}

/// Render a byte count against a unit to one decimal place.
fn scaled(bytes: u64, unit: u64, suffix: &str) -> (r: String)
    requires
        1 < unit <= 1073741824,
    ensures
        r@ == scaled_display(bytes as nat, unit as nat, suffix@),
{
    let whole = bytes / unit;
    proof {
        vstd::arithmetic::div_mod::lemma_div_is_ordered_by_denominator(bytes as int, 2, unit as int);
        vstd::arithmetic::div_mod::lemma_div_nonincreasing(bytes as int, 2);
        assert(whole <= bytes as int / 2);
    }
    let q = (bytes % unit) * 10;
    let t0 = q / unit;
    let r2 = q % unit;
    let tenth = if 2 * r2 > unit {
        t0 + 1
    } else if 2 * r2 < unit {
        t0
    } else if t0 % 2 == 0 {
        t0
    } else {
        t0 + 1
    };
    let (whole, tenth) = if tenth == 10 {
        (whole + 1, 0u64)
    } else {
        (whole, tenth)
    };
    proof {
        reveal_strlit(".");
        assert("."@ =~= seq!['.']);
    }
    let mut s = u64_to_dec(whole);
    s.append(".");
    let t = u64_to_dec(tenth);
    s.append(t.as_str());
    s.append(suffix);
    s
}

/// Information about an installed Python version.
pub struct PythonInstallation {
    /// The Python version.
    pub version: String,
    /// The path to the Python executable.
    pub path: String,
    /// Whether this is the default Python version.
    pub is_default: bool,
    /// Whether this Python is managed by the package manager rather than the
    /// system.
    pub is_managed: bool,
    /// The implementation name.
    pub implementation: String,
    /// The architecture, if known.
    pub architecture: Option<String>,
}

/// The display string for an installation: implementation and version, the
/// architecture in parentheses when known, and a default marker.
pub open spec fn installation_display_spec(p: PythonInstallation) -> Seq<char> {
    let base = p.implementation@ + seq![' '] + p.version@;
    let with_arch = match p.architecture {
        Option::Some(a) => base + " ("@ + a@ + seq![')'],
        Option::None => base,
    };
    if p.is_default {
        with_arch + " [default]"@
    } else {
        with_arch
    }
}

impl PythonInstallation {
    /// Create a new Python installation, assumed to be the reference
    /// implementation until told otherwise.
    pub fn new(version: String, path: String) -> (r: PythonInstallation)
        ensures
            r.version@ == version@,
            r.path@ == path@,
            r.implementation@ == "CPython"@,
            r.is_default == false,
            r.is_managed == false,
            r.architecture is None,
    {
        PythonInstallation {
            version,
            path,
            is_default: false,
            is_managed: false,
            implementation: String::from_str("CPython"),
            architecture: None,
        }
    }

    /// Get a display string for this installation.
    pub fn display(&self) -> (r: String)
        ensures
            r@ == installation_display_spec(*self),
    {
        proof {
            reveal_strlit(" ");
            reveal_strlit("(");
            reveal_strlit(")");
            assert(" "@ =~= seq![' ']);
            assert("("@ =~= seq!['(']);
            assert(")"@ =~= seq![')']);
        }
        let mut s = self.implementation.clone();
        s.append(" ");
        s.append(self.version.as_str());
        match &self.architecture {
            Option::Some(arch) => {
                s.append(" (");
                s.append(arch.as_str());
                s.append(")");
                proof {
                    assert(s@ =~= self.implementation@ + seq![' '] + self.version@ + " ("@
                        + self.architecture.unwrap()@ + seq![')']);
                }
            },
            Option::None => {},
        }
        if self.is_default {
            s.append(" [default]");
        }
        proof {
            assert(s@ =~= installation_display_spec(*self));
        }
        s
    }
}

} // verus!
