//! User-interface state shared across the front end: tabs, loading phases,
//! and notifications.

use vstd::prelude::*;

verus! {

/// The available tabs in the main window.
#[derive(Clone, Copy, Debug, PartialEq, Eq, Structural, Hash)]
pub enum Tab {
    /// Project overview showing dependencies and project info.
    Project,
    /// Package browser for searching and installing packages.
    Packages,
    /// Virtual environment management.
    Environments,
    /// Python version management.
    Python,
    /// Application settings.
    Settings,
}

impl Default for Tab {
    /// The project overview is the tab shown first.
    fn default() -> (r: Self)
        ensures
            r == Tab::Project,
    {
        Tab::Project
    }
}

/// Loading state for asynchronous operations.
#[derive(Clone, Copy, Debug, PartialEq, Eq, Structural)]
pub enum LoadingState {
    /// Not loading.
    Idle,
    /// Loading data.
    Loading,
    /// Successfully loaded.
    Loaded,
    /// Error occurred during loading.
    Error,
}

impl Default for LoadingState {
    /// Nothing is loading at first.
    fn default() -> (r: Self)
        ensures
            r == LoadingState::Idle,
    {
        LoadingState::Idle
    }
}

/// Notification type for user feedback.
#[derive(Clone, Copy, Debug, PartialEq, Eq, Structural)]
pub enum NotificationType {
    /// Informational message.
    Info,
    /// Success message.
    Success,
    /// Warning message.
    Warning,
    /// Error message.
    Error,
}

/// A notification to display to the user.
#[derive(Clone, Debug)]
pub struct Notification {
    /// The notification message.
    pub message: String,
    /// The notification type.
    pub notification_type: NotificationType,
    /// Whether the notification is dismissible.
    pub dismissible: bool,
}

impl Notification {
    /// Create a new info notification.
    pub fn info(message: String) -> (r: Self)
        ensures
            r.message@ == message@,
            r.notification_type == NotificationType::Info,
            r.dismissible,
    {
        Notification { message, notification_type: NotificationType::Info, dismissible: true }
    }

    /// Create a new success notification.
    pub fn success(message: String) -> (r: Self)
        ensures
            r.message@ == message@,
            r.notification_type == NotificationType::Success,
            r.dismissible,
    {
        Notification { message, notification_type: NotificationType::Success, dismissible: true }
    }

    /// Create a new warning notification.
    pub fn warning(message: String) -> (r: Self)
        ensures
            r.message@ == message@,
            r.notification_type == NotificationType::Warning,
            r.dismissible,
    {
        Notification { message, notification_type: NotificationType::Warning, dismissible: true }
    }

    /// Create a new error notification.
    pub fn error(message: String) -> (r: Self)
        ensures
            r.message@ == message@,
            r.notification_type == NotificationType::Error,
            r.dismissible,
    {
        Notification { message, notification_type: NotificationType::Error, dismissible: true }
    }
}

} // verus!
