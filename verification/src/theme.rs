//! Interaction-state styling: the hover, focus and active channels a theme
//! declares globally, per-component overrides, and the style one component
//! shows in one state.

use vstd::prelude::*;

use crate::color::Color;

verus! {

/// Independent visual channels of one interaction state; `None` leaves the
/// channel as it is at rest.
#[derive(Clone, Copy, Debug, Default, PartialEq, Eq, Structural)]
pub struct InteractionStyle {
    pub background: Option<Color>,
    pub foreground: Option<Color>,
    pub border: Option<Color>,
}

pub open spec fn no_style() -> InteractionStyle {
    InteractionStyle { background: None, foreground: None, border: None }
}

impl InteractionStyle {
    /// No channel changes.
    pub fn none() -> (s: Self)
        ensures
            s == no_style(),
    {
        InteractionStyle { background: None, foreground: None, border: None }
    }

    pub fn background(color: Color) -> (s: Self)
        ensures
            s == (InteractionStyle { background: Some(color), ..no_style() }),
    {
        InteractionStyle { background: Some(color), foreground: None, border: None }
    }

    pub fn foreground(color: Color) -> (s: Self)
        ensures
            s == (InteractionStyle { foreground: Some(color), ..no_style() }),
    {
        InteractionStyle { background: None, foreground: Some(color), border: None }
    }

    pub fn border(color: Color) -> (s: Self)
        ensures
            s == (InteractionStyle { border: Some(color), ..no_style() }),
    {
        InteractionStyle { background: None, foreground: None, border: Some(color) }
    }

    pub fn all(background: Color, foreground: Color, border: Color) -> (s: Self)
        ensures
            s == (InteractionStyle {
                background: Some(background),
                foreground: Some(foreground),
                border: Some(border),
            }),
    {
        InteractionStyle {
            background: Some(background),
            foreground: Some(foreground),
            border: Some(border),
        }
    }
}

/// The hover, focus and active styles of one component family.
#[derive(Clone, Copy, Debug, Default, PartialEq, Eq, Structural)]
pub struct InteractionStates {
    pub hover: InteractionStyle,
    pub focus: InteractionStyle,
    pub active: InteractionStyle,
}

/// Coarse component families that can receive theme-level interaction overrides.
#[derive(Clone, Copy, Debug, PartialEq, Eq, Structural)]
pub enum InteractionComponent {
    Button,
    Navigation,
    Toggle,
    Editable,
    RawSurface,
}

/// Optional component-specific states; `None` inherits the global states,
/// with safe defaults for editables and raw surfaces.
#[derive(Clone, Copy, Debug, Default, PartialEq, Eq, Structural)]
pub struct ComponentInteractions {
    pub button: Option<InteractionStates>,
    pub navigation: Option<InteractionStates>,
    pub toggle: Option<InteractionStates>,
    pub editable: Option<InteractionStates>,
    pub raw_surface: Option<InteractionStates>,
}

#[derive(Clone, Copy, Debug, PartialEq, Eq, Structural)]
pub enum InteractionState {
    Hover,
    Focus,
    Active,
}

/// The states a component family uses: its override, or else the global
/// states — an editable keeps only the hover border and no active style, a
/// raw surface keeps only focus.
pub open spec fn component_states_spec(
    global: InteractionStates,
    overrides: ComponentInteractions,
    component: InteractionComponent,
) -> InteractionStates {
    let o = match component {
        InteractionComponent::Button => overrides.button,
        InteractionComponent::Navigation => overrides.navigation,
        InteractionComponent::Toggle => overrides.toggle,
        InteractionComponent::Editable => overrides.editable,
        InteractionComponent::RawSurface => overrides.raw_surface,
    };
    match o {
        Some(s) => s,
        None => match component {
            InteractionComponent::Editable => InteractionStates {
                hover: InteractionStyle { border: global.hover.border, ..no_style() },
                focus: global.focus,
                active: no_style(),
            },
            InteractionComponent::RawSurface => InteractionStates {
                hover: no_style(),
                focus: global.focus,
                active: no_style(),
            },
            _ => global,
        },
    }
}

/// The style a component shows in a state; a focus border in the brand
/// accent is replaced by the accessible focus colour.
pub open spec fn interaction_style_spec(
    global: InteractionStates,
    overrides: ComponentInteractions,
    accent: Color,
    focus_color: Color,
    component: InteractionComponent,
    state: InteractionState,
) -> InteractionStyle {
    let states = component_states_spec(global, overrides, component);
    let style = match state {
        InteractionState::Hover => states.hover,
        InteractionState::Focus => states.focus,
        InteractionState::Active => states.active,
    };
    if state == InteractionState::Focus && style.border == Some(accent) {
        InteractionStyle { border: Some(focus_color), ..style }
    } else {
        style
    }
}

/// Resolves the style of `component` in `state` (see `interaction_style_spec`);
/// `focus_color` is the theme's accessible focus-indicator colour.
pub fn interaction_style(
    global: InteractionStates,
    overrides: ComponentInteractions,
    accent: Color,
    focus_color: Color,
    component: InteractionComponent,
    state: InteractionState,
) -> (s: InteractionStyle)
    ensures
        s == interaction_style_spec(global, overrides, accent, focus_color, component, state),
{
    let override_states = match component {
        InteractionComponent::Button => overrides.button,
        InteractionComponent::Navigation => overrides.navigation,
        InteractionComponent::Toggle => overrides.toggle,
        InteractionComponent::Editable => overrides.editable,
        InteractionComponent::RawSurface => overrides.raw_surface,
    };
    let states = match override_states {
        Some(s) => s,
        None => match component {
            InteractionComponent::Editable => InteractionStates {
                hover: InteractionStyle { background: None, foreground: None, border: global.hover.border },
                focus: global.focus,
                active: InteractionStyle::none(),
            },
            InteractionComponent::RawSurface => InteractionStates {
                hover: InteractionStyle::none(),
                focus: global.focus,
                active: InteractionStyle::none(),
            },
            _ => global,
        },
    };
    let mut style = match state {
        InteractionState::Hover => states.hover,
        InteractionState::Focus => states.focus,
        InteractionState::Active => states.active,
    };
    if state == InteractionState::Focus && style.border == Some(accent) {
        style.border = Some(focus_color);
    }
    style
}

} // verus!
