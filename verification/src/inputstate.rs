//! Mouse-button and modifier-key state, tracked as press/release toggles.

use vstd::prelude::*;

verus! {

pub struct InputState {
    pub mouse: Mouse,
    pub keyboard: Keyboard,
}

impl Default for InputState {
    fn default() -> (r: Self)
        ensures
            !r.mouse.left && !r.mouse.right && !r.mouse.middle,
            !r.keyboard.ctrl && !r.keyboard.shift,
    {
        InputState { mouse: Mouse::default(), keyboard: Keyboard::default() }
    }
}

pub struct Mouse {
    pub left: bool,
    pub right: bool,
    pub middle: bool,
}

impl Default for Mouse {
    fn default() -> (r: Self)
        ensures
            !r.left && !r.right && !r.middle,
    {
        Mouse { left: false, right: false, middle: false }
    }
}

impl Mouse {
    pub fn left_down(&self) -> (r: bool)
        ensures
            r == self.left,
    {
        self.left
    }

    pub fn middle_down(&self) -> (r: bool)
        ensures
            r == self.middle,
    {
        self.middle
    }

    pub fn right_down(&self) -> (r: bool)
        ensures
            r == self.right,
    {
        self.right
    }

    pub fn press_left(&mut self)
        ensures
            *final(self) == (Mouse { left: true, ..*old(self) }),
    {
        self.left = true;
    }

    pub fn release_left(&mut self)
        ensures
            *final(self) == (Mouse { left: false, ..*old(self) }),
    {
        self.left = false;
    }

    pub fn press_middle(&mut self)
        ensures
            *final(self) == (Mouse { middle: true, ..*old(self) }),
    {
        self.middle = true;
    }

    pub fn release_middle(&mut self)
        ensures
            *final(self) == (Mouse { middle: false, ..*old(self) }),
    {
        self.middle = false;
    }

    pub fn press_right(&mut self)
        ensures
            *final(self) == (Mouse { right: true, ..*old(self) }),
    {
        self.right = true;
    }

    pub fn release_right(&mut self)
        ensures
            *final(self) == (Mouse { right: false, ..*old(self) }),
    {
        self.right = false;
    }
}

pub struct Keyboard {
    pub ctrl: bool,
    pub shift: bool,
}

impl Default for Keyboard {
    fn default() -> (r: Self)
        ensures
            !r.ctrl && !r.shift,
    {
        Keyboard { ctrl: false, shift: false }
    }
}

impl Keyboard {
    pub fn ctrl_down(&self) -> (r: bool)
        ensures
            r == self.ctrl,
    {
        self.ctrl
    }

    pub fn shift_down(&self) -> (r: bool)
        ensures
            r == self.shift,
    {
        self.shift
    }

    pub fn press_ctrl(&mut self)
        ensures
            *final(self) == (Keyboard { ctrl: true, ..*old(self) }),
    {
        self.ctrl = true;
    }

    pub fn release_ctrl(&mut self)
        ensures
            *final(self) == (Keyboard { ctrl: false, ..*old(self) }),
    {
        self.ctrl = false;
    }

    pub fn press_shift(&mut self)
        ensures
            *final(self) == (Keyboard { shift: true, ..*old(self) }),
    {
        self.shift = true;
    }

    pub fn release_shift(&mut self)
        ensures
            *final(self) == (Keyboard { shift: false, ..*old(self) }),
    {
        self.shift = false;
    }
}

} // verus!
