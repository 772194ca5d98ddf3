//! Integration tests for the front-end state types.

use uv::project_state::{Package, ProjectState};
use uv::state::Tab;

/// Test that the main types are accessible and basic values build.
#[test]
fn test_gui_module_imports() {
    let _tab = Tab::Project;
    let _package = Package::new(String::from("test"));
    let _project = ProjectState::empty();
}

/// Test project state with dependencies.
#[test]
fn test_project_with_dependencies() {
    let mut project = ProjectState::empty();
    project.name = "test-project".to_string();
    project.version = Some("1.0.0".to_string());

    project.dependencies = vec![
        Package::with_version(String::from("requests"), String::from("2.31.0")),
        Package::with_version(String::from("numpy"), String::from("1.26.0")),
    ];

    project.dev_dependencies = vec![
        Package::with_version(String::from("pytest"), String::from("7.4.0")),
        Package::with_version(String::from("black"), String::from("23.10.0")),
    ];

    assert_eq!(project.dependency_count(), 4);
    assert_eq!(project.dependencies.len(), 2);
    assert_eq!(project.dev_dependencies.len(), 2);
}

/// Test package update detection.
#[test]
fn test_package_updates() {
    let mut pkg = Package::new(String::from("requests"));
    pkg.installed_version = Some("2.30.0".to_string());
    pkg.latest_version = Some("2.31.0".to_string());
    pkg.update_available = true;

    assert!(pkg.is_installed());
    assert!(pkg.has_update());
}
