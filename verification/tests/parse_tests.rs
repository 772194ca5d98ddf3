//! Tests for the text parsers, display formatting, requirement parsing, and
//! the version map.

use uv::display::{format_installed_version, format_required_version};
use uv::loaders::{
    DependencyLoader, DependencySource, DevRequirement, LockEntry, LockedPackage, LockfileLoader,
    ProjectLoader, RequirementGroup,
};
use uv::parse::{extract_project_name, extract_project_version, parse_python_list,
    parse_python_version_output};
use uv::project_state::Package;
use uv::state::Tab;

#[test]
fn test_default_tab() {
    assert_eq!(Tab::default(), Tab::Project);
}

#[test]
fn test_parse_python_list() {
    let output = "cpython-3.12.7-macos-aarch64-none    /Users/test/.local/share/uv/python/cpython-3.12.7/bin/python3.12
cpython-3.11.9-macos-aarch64-none    /opt/homebrew/bin/python3.11";
    let pythons = parse_python_list(output);
    assert_eq!(pythons.len(), 2);
    assert_eq!(pythons[0].version, "3.12.7");
    assert!(pythons[0].is_managed);
    assert_eq!(pythons[1].version, "3.11.9");
    assert!(!pythons[1].is_managed);
}

#[test]
fn test_extract_project_name() {
    let content = "
[project]
name = \"my-project\"
version = \"0.1.0\"
";
    assert_eq!(extract_project_name(content), Some("my-project".to_string()));
}

#[test]
fn test_extract_project_version() {
    let content = "
[project]
name = \"my-project\"
version = \"0.1.0\"
";
    assert_eq!(
        extract_project_version(content),
        Some("0.1.0".to_string())
    );
}

#[test]
fn test_parse_python_version_output() {
    assert_eq!(parse_python_version_output("Python 3.12.0\n"), "3.12.0");
    assert_eq!(parse_python_version_output("  3.11.9  "), "3.11.9");
}

#[test]
fn test_format_required_version_simple() {
    let mut pkg = Package::new("requests".to_string());
    pkg.required_version = Some("requests>=2.28.0".to_string());
    assert_eq!(format_required_version(&pkg), ">=2.28.0");
}

#[test]
fn test_format_required_version_with_extras() {
    let mut pkg = Package::new("requests".to_string());
    pkg.required_version = Some("requests[security]>=2.28.0".to_string());
    assert_eq!(format_required_version(&pkg), ">=2.28.0");
}

#[test]
fn test_format_required_version_bare_name() {
    let mut pkg = Package::new("requests".to_string());
    pkg.required_version = Some("requests".to_string());
    assert_eq!(format_required_version(&pkg), "*");
    pkg.required_version = None;
    assert_eq!(format_required_version(&pkg), "*");
}

#[test]
fn test_format_installed_version() {
    let mut pkg = Package::new("requests".to_string());
    assert_eq!(format_installed_version(&pkg), "not locked");

    pkg.installed_version = Some("2.31.0".to_string());
    assert_eq!(format_installed_version(&pkg), "v2.31.0");
}

#[test]
fn test_parse_requirement_simple() {
    let dep = DependencyLoader::parse_requirement("requests", DependencySource::Project);
    assert!(dep.is_some());
    let dep = dep.unwrap();
    assert_eq!(dep.name, "requests");
    assert_eq!(dep.requirement_string, "requests");
}

#[test]
fn test_parse_requirement_with_version() {
    let dep = DependencyLoader::parse_requirement("requests>=2.28.0", DependencySource::Project);
    assert!(dep.is_some());
    let dep = dep.unwrap();
    assert_eq!(dep.name, "requests");
    assert_eq!(dep.requirement_string, "requests>=2.28.0");
}

#[test]
fn test_parse_requirement_with_extras() {
    let dep = DependencyLoader::parse_requirement(
        "requests[security]>=2.28.0",
        DependencySource::Project,
    );
    assert!(dep.is_some());
    let dep = dep.unwrap();
    assert_eq!(dep.name, "requests");
}

#[test]
fn test_parse_requirement_normalizes() {
    let dep = DependencyLoader::parse_requirement("Typing_Extensions>=4", DependencySource::Project);
    assert!(dep.is_some());
    assert_eq!(dep.unwrap().name, "typing-extensions");

    let rejected = DependencyLoader::parse_requirement(">=2.0", DependencySource::Project);
    assert!(rejected.is_none());
}

#[test]
fn test_dependency_source_is_dev() {
    assert!(!DependencySource::Project.is_dev());
    assert!(DependencySource::ToolUvDevDependencies.is_dev());
    assert!(DependencySource::DependencyGroup("dev".to_string()).is_dev());
}

#[test]
fn test_build_version_map_empty() {
    let map = ProjectLoader::build_version_map(&None);
    assert!(map.is_empty());
}

#[test]
fn test_build_version_map_with_packages() {
    let packages = vec![LockedPackage {
        name: "requests".to_string(),
        version: "2.31.0".to_string(),
    }];

    let map = ProjectLoader::build_version_map(&Some(packages));
    assert_eq!(map.len(), 1);
    assert_eq!(map.get("requests").unwrap(), "2.31.0");
}

#[test]
fn test_collect_locked() {
    let entries = vec![
        LockEntry {
            name: "requests".to_string(),
            version: Some("2.31.0".to_string()),
        },
        LockEntry {
            name: "local-tree".to_string(),
            version: None,
        },
    ];
    let packages = LockfileLoader::collect_locked(1, entries).unwrap();
    assert_eq!(packages.len(), 1);
    assert_eq!(packages[0].name, "requests");
    assert_eq!(packages[0].version, "2.31.0");

    let bad = LockfileLoader::collect_locked(2, Vec::new());
    assert!(bad.is_err());
}

#[test]
fn test_categorize_and_enrich() {
    let raw = vec![
        DependencyLoader::parse_requirement("requests>=2", DependencySource::Project).unwrap(),
        DependencyLoader::parse_requirement("pytest", DependencySource::ToolUvDevDependencies)
            .unwrap(),
        DependencyLoader::parse_requirement("pytest>=7", DependencySource::DependencyGroup(
            "dev".to_string(),
        ))
        .unwrap(),
    ];
    let map = ProjectLoader::build_version_map(&Some(vec![LockedPackage {
        name: "requests".to_string(),
        version: "2.31.0".to_string(),
    }]));
    let (deps, devs) = ProjectLoader::categorize_and_enrich(&raw, &map);
    assert_eq!(deps.len(), 1);
    assert_eq!(deps[0].name, "requests");
    assert_eq!(deps[0].installed_version, Some("2.31.0".to_string()));
    assert!(!deps[0].is_dev);
    // The duplicate development dependency collapses to its first occurrence.
    assert_eq!(devs.len(), 1);
    assert_eq!(devs[0].name, "pytest");
    assert_eq!(devs[0].required_version, Some("pytest".to_string()));
    assert!(devs[0].is_dev);
}

#[test]
fn test_load_all_categories() {
    let project = vec!["requests>=2".to_string(), ">=bad".to_string()];
    let optional = vec![RequirementGroup {
        name: "dev".to_string(),
        requirements: vec!["black==23.10.0".to_string()],
    }];
    let devs = vec![DevRequirement {
        name: "pytest".to_string(),
        text: "pytest>=7".to_string(),
    }];
    let groups = vec![RequirementGroup {
        name: "docs".to_string(),
        requirements: vec!["sphinx".to_string()],
    }];
    let loaded = DependencyLoader::load(&project, &optional, &devs, &groups);
    let names: Vec<&str> = loaded.iter().map(|d| d.name.as_str()).collect();
    // The unparsable line is dropped; categories keep their order.
    assert_eq!(names, vec!["requests", "black", "pytest", "sphinx"]);
    assert!(!loaded[0].is_dev());
    assert!(loaded[1].is_dev());
    assert!(loaded[2].is_dev());
    assert!(!loaded[3].is_dev());
    assert_eq!(loaded[1].source.label(), "optional");
    assert_eq!(loaded[3].source.label(), "group");
}
