//! Tests carried over from the modules' own unit tests: application state,
//! packages, environments, installations, and index-metadata conversion.

use uv::app_state::AppState;
use uv::GuiError;
use uv::project_state::{Environment, Package, PythonInstallation};
use uv::pypi::PyPiPackageInfo;
use uv::state::{Notification, Tab};

#[test]
fn test_app_state_new() {
    let state = AppState::new();
    assert_eq!(state.current_tab(), Tab::Project);
    assert!(state.project().is_none());
    assert!(state.is_dark_mode());
}

#[test]
fn app_state_test_tab_switching() {
    let mut state = AppState::new();
    state.set_current_tab(Tab::Packages);
    assert_eq!(state.current_tab(), Tab::Packages);
}

#[test]
fn test_notifications() {
    let mut state = AppState::new();
    assert!(state.notifications().is_empty());

    state.add_notification(Notification::info(String::from("Test")));
    assert_eq!(state.notifications().len(), 1);

    state.remove_notification(0);
    assert!(state.notifications().is_empty());
}

#[test]
fn test_package_new() {
    let pkg = Package::new(String::from("requests"));
    assert_eq!(pkg.name, "requests");
    assert!(!pkg.is_installed());
}

#[test]
fn test_package_with_version() {
    let pkg = Package::with_version(String::from("requests"), String::from("2.31.0"));
    assert_eq!(pkg.name, "requests");
    assert_eq!(pkg.installed_version, Some("2.31.0".to_string()));
    assert!(pkg.is_installed());
}

#[test]
fn test_environment_size_display() {
    let mut env = Environment::new(String::from("test"), String::from("/tmp/test"));

    env.size_bytes = Some(500);
    assert_eq!(env.size_display(), "500 B");

    env.size_bytes = Some(2048);
    assert_eq!(env.size_display(), "2.0 KB");

    env.size_bytes = Some(5_242_880);
    assert_eq!(env.size_display(), "5.0 MB");

    env.size_bytes = Some(2_147_483_648);
    assert_eq!(env.size_display(), "2.0 GB");
}

#[test]
fn test_python_installation_display() {
    let mut py = PythonInstallation::new(String::from("3.12.0"), String::from("/usr/bin/python3"));
    assert_eq!(py.display(), "CPython 3.12.0");

    py.architecture = Some("x86_64".to_string());
    assert_eq!(py.display(), "CPython 3.12.0 (x86_64)");

    py.is_default = true;
    assert_eq!(py.display(), "CPython 3.12.0 (x86_64) [default]");
}

#[test]
fn test_pypi_info_into_package() {
    let info = PyPiPackageInfo {
        name: "requests".to_string(),
        version: "2.31.0".to_string(),
        summary: "Python HTTP for Humans".to_string(),
        description: None,
        author: Some("Kenneth Reitz".to_string()),
        author_email: None,
        license: Some("Apache-2.0".to_string()),
        home_page: Some("https://requests.readthedocs.io".to_string()),
        project_urls: Some(vec![
            (
                "Source".to_string(),
                "https://github.com/psf/requests".to_string(),
            ),
            (
                "Documentation".to_string(),
                "https://requests.readthedocs.io".to_string(),
            ),
        ]),
        keywords: Some("http,client,web".to_string()),
        requires_python: None,
        requires_dist: Some(vec![
            "charset-normalizer>=2".to_string(),
            "idna>=2.5".to_string(),
        ]),
    };

    let package = info.into_package();

    assert_eq!(package.name, "requests");
    assert_eq!(package.latest_version, Some("2.31.0".to_string()));
    assert_eq!(
        package.description,
        Some("Python HTTP for Humans".to_string())
    );
    assert_eq!(package.license, Some("Apache-2.0".to_string()));
    assert_eq!(
        package.repository,
        Some("https://github.com/psf/requests".to_string())
    );
    assert_eq!(package.keywords, vec!["http", "client", "web"]);
    assert_eq!(package.dependencies.len(), 2);
}

#[test]
fn test_gui_error_messages() {
    let e = GuiError::CommandError("sync failed".to_string());
    assert_eq!(e.message(), "Command failed: sync failed");
    assert_eq!(e.detail(), "sync failed");
    let e = GuiError::NetworkError("timed out".to_string());
    assert_eq!(e.message(), "Network error: timed out");
}
