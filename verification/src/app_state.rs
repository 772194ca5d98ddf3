//! Global application state for the front end.

use vstd::prelude::*;

use crate::project_state::ProjectState;
use crate::state::{LoadingState, Notification, Tab};

verus! {

/// Global application state.
pub struct AppState {
    /// The currently active tab.
    current_tab: Tab,
    /// The current project state, if a project is loaded.
    project: Option<ProjectState>,
    /// The current working directory, once one is known.
    working_directory: Option<String>,
    /// Active notifications.
    notifications: Vec<Notification>,
    /// Global loading state.
    loading_state: LoadingState,
    /// Whether dark mode is enabled.
    dark_mode: bool,
    /// Cache directory path.
    cache_dir: Option<String>,
}


impl AppState {
    /// The active tab, mathematically.
    pub closed spec fn spec_current_tab(&self) -> Tab {
        self.current_tab
    }

    /// The loaded project, mathematically.
    pub closed spec fn spec_project(&self) -> Option<ProjectState> {
        self.project
    }

    /// The working directory, mathematically.
    pub closed spec fn spec_working_directory(&self) -> Option<String> {
        self.working_directory
    }

    /// The notifications, mathematically.
    pub closed spec fn spec_notifications(&self) -> Seq<Notification> {
        self.notifications@
    }

    /// The loading state, mathematically.
    pub closed spec fn spec_loading_state(&self) -> LoadingState {
        self.loading_state
    }

    /// Whether dark mode is on, mathematically.
    pub closed spec fn spec_dark_mode(&self) -> bool {
        self.dark_mode
    }

    /// The cache directory, mathematically.
    pub closed spec fn spec_cache_dir(&self) -> Option<String> {
        self.cache_dir
    }
}

impl AppState {
    /// Create a new application state: the project tab, no project, no
    /// notifications, idle, dark mode on, and no directories known yet.
    pub fn new() -> (r: AppState)
        ensures
            r.spec_current_tab() == Tab::Project,
            r.spec_project() is None,
            r.spec_working_directory() is None,
            r.spec_notifications().len() == 0,
            r.spec_loading_state() == LoadingState::Idle,
            r.spec_dark_mode() == true,
            r.spec_cache_dir() is None,
    {
        AppState {
            current_tab: Tab::Project,
            project: None,
            working_directory: None,
            notifications: Vec::new(),
            loading_state: LoadingState::Idle,
            dark_mode: true,
            cache_dir: None,
        }
    }

    /// Get the current tab.
    pub fn current_tab(&self) -> (r: Tab)
        ensures
            r == self.spec_current_tab(),
    {
        self.current_tab
    }

    /// Set the current tab.
    pub fn set_current_tab(&mut self, tab: Tab)
        ensures
            final(self).spec_current_tab() == tab,
            final(self).spec_project() == old(self).spec_project(),
            final(self).spec_working_directory() == old(self).spec_working_directory(),
            final(self).spec_notifications() == old(self).spec_notifications(),
            final(self).spec_loading_state() == old(self).spec_loading_state(),
            final(self).spec_dark_mode() == old(self).spec_dark_mode(),
            final(self).spec_cache_dir() == old(self).spec_cache_dir(),
    {
        self.current_tab = tab;
    }

    /// Get the current project state.
    pub fn project(&self) -> (r: Option<&ProjectState>)
        ensures
            r is Some <==> self.spec_project() is Some,
            r matches Some(p) ==> (self.spec_project() matches Some(q) && p == q),
    {
        self.project.as_ref()
    }

    /// Set the project state.
    pub fn set_project(&mut self, project: Option<ProjectState>)
        ensures
            final(self).spec_project() == project,
            final(self).spec_current_tab() == old(self).spec_current_tab(),
            final(self).spec_working_directory() == old(self).spec_working_directory(),
            final(self).spec_notifications() == old(self).spec_notifications(),
            final(self).spec_loading_state() == old(self).spec_loading_state(),
            final(self).spec_dark_mode() == old(self).spec_dark_mode(),
            final(self).spec_cache_dir() == old(self).spec_cache_dir(),
    {
        self.project = project;
    }

    /// Get the working directory.
    pub fn working_directory(&self) -> (r: Option<&String>)
        ensures
            r is Some <==> self.spec_working_directory() is Some,
            r matches Some(p) ==> (self.spec_working_directory() matches Some(q) && p == q),
    {
        self.working_directory.as_ref()
    }

    /// Set the working directory.
    pub fn set_working_directory(&mut self, path: String)
        ensures
            final(self).spec_working_directory() matches Some(p) && p@ == path@,
            final(self).spec_current_tab() == old(self).spec_current_tab(),
            final(self).spec_project() == old(self).spec_project(),
            final(self).spec_notifications() == old(self).spec_notifications(),
            final(self).spec_loading_state() == old(self).spec_loading_state(),
            final(self).spec_dark_mode() == old(self).spec_dark_mode(),
            final(self).spec_cache_dir() == old(self).spec_cache_dir(),
    {
        self.working_directory = Some(path);
    }

    /// Get active notifications.
    pub fn notifications(&self) -> (r: &Vec<Notification>)
        ensures
            r@ == self.spec_notifications(),
    {
        &self.notifications
    }

    /// Add a notification after the present ones.
    pub fn add_notification(&mut self, notification: Notification)
        ensures
            final(self).spec_notifications() == old(self).spec_notifications().push(notification),
            final(self).spec_current_tab() == old(self).spec_current_tab(),
            final(self).spec_project() == old(self).spec_project(),
            final(self).spec_working_directory() == old(self).spec_working_directory(),
            final(self).spec_loading_state() == old(self).spec_loading_state(),
            final(self).spec_dark_mode() == old(self).spec_dark_mode(),
            final(self).spec_cache_dir() == old(self).spec_cache_dir(),
    {
        self.notifications.push(notification);
    }

    /// Remove the notification at an index; an index out of range removes
    /// nothing.
    pub fn remove_notification(&mut self, index: usize)
        ensures
            index < old(self).spec_notifications().len() ==> final(self).spec_notifications()
                == old(self).spec_notifications().remove(index as int),
            index >= old(self).spec_notifications().len() ==> final(self).spec_notifications()
                == old(self).spec_notifications(),
            final(self).spec_current_tab() == old(self).spec_current_tab(),
            final(self).spec_project() == old(self).spec_project(),
            final(self).spec_working_directory() == old(self).spec_working_directory(),
            final(self).spec_loading_state() == old(self).spec_loading_state(),
            final(self).spec_dark_mode() == old(self).spec_dark_mode(),
            final(self).spec_cache_dir() == old(self).spec_cache_dir(),
    {
        if index < self.notifications.len() {
            self.notifications.remove(index);
        }
    }

    /// Clear all notifications.
    pub fn clear_notifications(&mut self)
        ensures
            final(self).spec_notifications().len() == 0,
            final(self).spec_current_tab() == old(self).spec_current_tab(),
            final(self).spec_project() == old(self).spec_project(),
            final(self).spec_working_directory() == old(self).spec_working_directory(),
            final(self).spec_loading_state() == old(self).spec_loading_state(),
            final(self).spec_dark_mode() == old(self).spec_dark_mode(),
            final(self).spec_cache_dir() == old(self).spec_cache_dir(),
    {
        self.notifications.clear();
    }

    /// Get the loading state.
    pub fn loading_state(&self) -> (r: LoadingState)
        ensures
            r == self.spec_loading_state(),
    {
        self.loading_state
    }

    /// Set the loading state.
    pub fn set_loading_state(&mut self, state: LoadingState)
        ensures
            final(self).spec_loading_state() == state,
            final(self).spec_current_tab() == old(self).spec_current_tab(),
            final(self).spec_project() == old(self).spec_project(),
            final(self).spec_working_directory() == old(self).spec_working_directory(),
            final(self).spec_notifications() == old(self).spec_notifications(),
            final(self).spec_dark_mode() == old(self).spec_dark_mode(),
            final(self).spec_cache_dir() == old(self).spec_cache_dir(),
    {
        self.loading_state = state;
    }

    /// Check if dark mode is enabled.
    pub fn is_dark_mode(&self) -> (r: bool)
        ensures
            r == self.spec_dark_mode(),
    {
        self.dark_mode
    }

    /// Toggle dark mode.
    pub fn toggle_dark_mode(&mut self)
        ensures
            final(self).spec_dark_mode() == !old(self).spec_dark_mode(),
            final(self).spec_current_tab() == old(self).spec_current_tab(),
            final(self).spec_project() == old(self).spec_project(),
            final(self).spec_working_directory() == old(self).spec_working_directory(),
            final(self).spec_notifications() == old(self).spec_notifications(),
            final(self).spec_loading_state() == old(self).spec_loading_state(),
            final(self).spec_cache_dir() == old(self).spec_cache_dir(),
    {
        self.dark_mode = !self.dark_mode;
    }

    /// Get the cache directory.
    pub fn cache_dir(&self) -> (r: Option<&String>)
        ensures
            r is Some <==> self.spec_cache_dir() is Some,
            r matches Some(p) ==> (self.spec_cache_dir() matches Some(q) && p == q),
    {
        self.cache_dir.as_ref()
    }

    /// Set the cache directory.
    pub fn set_cache_dir(&mut self, path: String)
        ensures
            final(self).spec_cache_dir() matches Some(p) && p@ == path@,
            final(self).spec_current_tab() == old(self).spec_current_tab(),
            final(self).spec_project() == old(self).spec_project(),
            final(self).spec_working_directory() == old(self).spec_working_directory(),
            final(self).spec_notifications() == old(self).spec_notifications(),
            final(self).spec_loading_state() == old(self).spec_loading_state(),
            final(self).spec_dark_mode() == old(self).spec_dark_mode(),
    {
        self.cache_dir = Some(path);
    }
}

impl Default for AppState {
    /// The fresh state of [`AppState::new`].
    fn default() -> (r: Self)
        ensures
            r.spec_current_tab() == Tab::Project,
            r.spec_dark_mode() == true,
    {
        AppState::new()
    }
}

} // verus!
