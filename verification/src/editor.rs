//! Editor-level enumerations shared by the surrounding user interface:
//! how text is aligned inside a box, and which component has focus.

use vstd::prelude::*;

verus! {

pub enum TextAlignment {
    LEFT,
    RIGHT,
    CENTER,
}

pub enum Component {
    TEXT,
    CONSOLE,
}

} // verus!
