//! Outline highlighting of selectable scene elements: which color a
//! hovered or selected element's outline takes.

use vstd::prelude::*;

verus! {

/// An RGB color with channels in thousandths of full intensity.
#[derive(Clone, Copy, Debug, PartialEq, Eq, Structural)]
pub struct Color {
    pub r: u16,
    pub g: u16,
    pub b: u16,
}

/// Whether the cursor is over an element, directly or through something
/// it supports.
#[derive(Clone, Copy, Debug, PartialEq, Eq, Structural)]
pub struct Hovered {
    pub is_hovered: bool,
    pub support_hovering: bool,
}

impl Hovered {
    /// Whether a hover cue should show.
    pub fn cue(&self) -> (r: bool)
        ensures
            r == (self.is_hovered || self.support_hovering),
    {
        self.is_hovered || self.support_hovering
    }
}

/// Whether an element is selected, directly or through something it
/// supports.
#[derive(Clone, Copy, Debug, PartialEq, Eq, Structural)]
pub struct Selected {
    pub is_selected: bool,
    pub support_selected: bool,
}

impl Selected {
    /// Whether a selection cue should show.
    pub fn cue(&self) -> (r: bool)
        ensures
            r == (self.is_selected || self.support_selected),
    {
        self.is_selected || self.support_selected
    }
}

/// How an element is outlined when hovered or selected.
#[derive(Clone, Copy, Debug, PartialEq, Eq, Structural)]
pub enum OutlineVisualization {
    Ordinary,
    Anchor,
}

impl Default for OutlineVisualization {
    /// Elements are outlined the ordinary way unless said otherwise.
    fn default() -> (r: Self)
        ensures
            r is Ordinary,
    {
        OutlineVisualization::Ordinary
    }
}

/// The outline color an element should take, if any.
pub open spec fn color_spec(v: OutlineVisualization, hovered: Hovered, selected: Selected) -> Option<Color> {
    let hcue = hovered.is_hovered || hovered.support_hovering;
    let scue = selected.is_selected || selected.support_selected;
    match v {
        OutlineVisualization::Ordinary => {
            if !hcue && !scue {
                None
            } else if hcue && scue {
                Some(Color { r: 1000, g: 0, b: 300 })
            } else if scue {
                Some(Color { r: 1000, g: 300, b: 1000 })
            } else {
                Some(Color { r: 1000, g: 1000, b: 1000 })
            }
        },
        OutlineVisualization::Anchor => {
            if hovered.is_hovered {
                Some(Color { r: 1000, g: 1000, b: 1000 })
            } else {
                Some(Color { r: 0, g: 0, b: 0 })
            }
        },
    }
}

impl OutlineVisualization {
    /// The outline color for the element's current hover and selection
    /// state: ordinary elements blend toward red-pink when both cues are
    /// on, pink when selected, white when only hovered, and no outline
    /// otherwise; anchors are white under the cursor and black otherwise.
    pub fn color(&self, hovered: &Hovered, selected: &Selected) -> (r: Option<Color>)
        ensures
            r == color_spec(*self, *hovered, *selected),
    {
        match self {
            OutlineVisualization::Ordinary => {
                if !hovered.cue() && !selected.cue() {
                    None
                } else if hovered.cue() && selected.cue() {
                    Some(Color { r: 1000, g: 0, b: 300 })
                } else if selected.cue() {
                    Some(Color { r: 1000, g: 300, b: 1000 })
                } else {
                    Some(Color { r: 1000, g: 1000, b: 1000 })
                }
            },
            OutlineVisualization::Anchor => {
                if hovered.is_hovered {
                    Some(Color { r: 1000, g: 1000, b: 1000 })
                } else {
                    Some(Color { r: 0, g: 0, b: 0 })
                }
            },
        }
    }
}

} // verus!
