//! Styling options for the front end's buttons, as plain values.

use vstd::prelude::*;

verus! {

/// Button visual style variants.
#[derive(Clone, Copy, Debug, PartialEq, Eq, Structural)]
pub enum ButtonVariant {
    /// Primary action button.
    Primary,
    /// Secondary action button.
    Secondary,
    /// Destructive action button.
    Danger,
    /// Quiet button with minimal styling.
    Quiet,
}

impl Default for ButtonVariant {
    /// The primary variant is the default.
    fn default() -> (r: Self)
        ensures
            r == ButtonVariant::Primary,
    {
        ButtonVariant::Primary
    }
}

/// Button size options.
#[derive(Clone, Copy, Debug, PartialEq, Eq, Structural)]
pub enum ButtonSize {
    /// Small button.
    Small,
    /// Medium button.
    Medium,
    /// Large button.
    Large,
}

impl Default for ButtonSize {
    /// Medium is the default size.
    fn default() -> (r: Self)
        ensures
            r == ButtonSize::Medium,
    {
        ButtonSize::Medium
    }
}

/// Custom button styling options.
#[derive(Clone, Copy, Debug, PartialEq, Eq, Structural)]
pub struct ButtonStyle {
    /// The button variant.
    pub variant: ButtonVariant,
    /// Whether the button is disabled.
    pub disabled: bool,
    /// Whether the button shows a loading state.
    pub loading: bool,
    /// Whether the button is full width.
    pub full_width: bool,
    /// The button size.
    pub size: ButtonSize,
}

impl Default for ButtonStyle {
    /// An enabled, quiet, medium, primary button.
    fn default() -> (r: Self)
        ensures
            r.variant == ButtonVariant::Primary,
            r.size == ButtonSize::Medium,
            !r.disabled,
            !r.loading,
            !r.full_width,
    {
        ButtonStyle {
            variant: ButtonVariant::Primary,
            disabled: false,
            loading: false,
            full_width: false,
            size: ButtonSize::Medium,
        }
    }
}

} // verus!
