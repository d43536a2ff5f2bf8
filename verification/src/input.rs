//! The keyboard input handler.
use vstd::prelude::*;
use crate::pointer::DeviceError;

verus! {

/// The keyboard handler.  It holds no state yet; listening returns at once
/// without calling the callback.
pub struct InputHandler {}

impl InputHandler {
    pub fn new() -> (r: Result<Self, DeviceError>)
        ensures
            r is Ok,
    {
        Ok(Self {  })
    }

    /// `callback` receives each typed input and returns `true` to stop.
    pub fn start_listening<F>(&mut self, _callback: F) -> (r: Result<(), DeviceError>) where
        F: FnMut(String) -> bool,

        ensures
            r is Ok,
    {
        Ok(())
    }
}

} // verus!
