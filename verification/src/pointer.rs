//! Pointer buttons, scroll directions and the virtual pointer device.
use vstd::prelude::*;

verus! {

#[derive(Debug, Clone, Copy, PartialEq, Eq, Structural)]
pub enum MouseButton {
    Left,
    Right,
    Middle,
}

#[derive(Debug, Clone, Copy, PartialEq, Eq, Structural)]
pub enum ScrollDirection {
    Up,
    Down,
    Left,
    Right,
}

/// Why the virtual pointer device could not act.
#[derive(Debug, Clone, Copy, PartialEq, Eq, Structural)]
pub enum DeviceError {
    Unavailable,
}

/// The virtual pointer device.  It holds no state yet, and every operation
/// on it succeeds without effect.
pub struct VirtualPointer {}

impl VirtualPointer {
    pub fn new() -> (r: Result<Self, DeviceError>)
        ensures
            r is Ok,
    {
        Ok(Self {  })
    }

    pub fn move_to(&mut self, _x: i32, _y: i32) -> (r: Result<(), DeviceError>)
        ensures
            r is Ok,
    {
        Ok(())
    }

    pub fn click(&mut self, _button: MouseButton) -> (r: Result<(), DeviceError>)
        ensures
            r is Ok,
    {
        Ok(())
    }

    pub fn scroll(&mut self, _direction: ScrollDirection, _distance: i32) -> (r: Result<
        (),
        DeviceError,
    >)
        ensures
            r is Ok,
    {
        Ok(())
    }

    pub fn drag_to(&mut self, _start_x: i32, _start_y: i32, _end_x: i32, _end_y: i32) -> (r:
        Result<(), DeviceError>)
        ensures
            r is Ok,
    {
        Ok(())
    }
}

} // verus!
