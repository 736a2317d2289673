//! The sides of an actor card that a connection line can attach to.
use vstd::prelude::*;

verus! {

/// A side of an actor card.
#[derive(Debug, Clone, Copy, PartialEq, Eq, Structural)]
pub enum PortType {
    Top,
    Bottom,
    Left,
    Right,
}

} // verus!
