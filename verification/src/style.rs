//! Widget styles: the box model each node carries into layout, the z-index
//! request used for paint order and hit testing, and event interest flags.

use vstd::prelude::*;

verus! {

/// How a node sizes one axis.
#[derive(Clone, Copy, PartialEq, Eq, Structural, Debug)]
pub enum Unit {
    /// A fixed size in pixels.
    Px(u32),
    /// A percentage of the parent's content-box size on the same axis.
    Percent(u32),
    /// A share of the space left after fixed and percentage siblings,
    /// proportional to the given weight.
    Stretch(u32),
}

/// The axis along which a container stacks its children.
#[derive(Clone, Copy, PartialEq, Eq, Structural, Debug)]
pub enum Direction {
    Row,
    Column,
}

/// RGBA color, 8 bits per channel.
#[derive(Clone, Copy, PartialEq, Eq, Structural, Debug)]
pub struct Color {
    pub r: u8,
    pub g: u8,
    pub b: u8,
    pub a: u8,
}

/// The resolved style of a node.
///
/// `has_z` records whether the node explicitly requests an overlay
/// z-index (`z_value`); otherwise it paints at its parent's effective
/// z-index, in tree pre-order.
#[derive(Clone, Copy, PartialEq, Eq, Structural, Debug)]
pub struct Style {
    pub width: Unit,
    pub height: Unit,
    pub direction: Direction,
    pub padding: u32,
    pub margin: u32,
    pub color: Color,
    pub has_z: bool,
    pub z_value: i32,
    pub pointer_events: bool,
    pub keyboard_events: bool,
}

impl Style {
    /// A neutral style: stretch both axes with weight 1, no padding or
    /// margin, transparent, no overlay z-index, no event interest.
    pub fn plain() -> (s: Style)
        ensures
            s == (Style {
                width: Unit::Stretch(1),
                height: Unit::Stretch(1),
                direction: Direction::Row,
                padding: 0,
                margin: 0,
                color: Color { r: 0, g: 0, b: 0, a: 0 },
                has_z: false,
                z_value: 0,
                pointer_events: false,
                keyboard_events: false,
            }),
    {
        Style {
            width: Unit::Stretch(1),
            height: Unit::Stretch(1),
            direction: Direction::Row,
            padding: 0,
            margin: 0,
            color: Color { r: 0, g: 0, b: 0, a: 0 },
            has_z: false,
            z_value: 0,
            pointer_events: false,
            keyboard_events: false,
        }
    }
}

} // verus!
