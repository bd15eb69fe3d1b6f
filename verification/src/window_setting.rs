//! Window geometry carried by the player settings file.

use vstd::prelude::*;

verus! {

use vstd::string::StringExecFns;

/// Window width and height in pixels.
#[derive(Clone, Copy, Debug, PartialEq, Eq, Structural)]
pub struct WindowSetting(pub u32, pub u32);

/// Title used when the engine settings file does not name one.
pub fn window_title() -> (r: String)
    ensures
        r@ == "Game"@,
{
    String::from_str("Game")
}

impl Default for WindowSetting {
    fn default() -> (r: Self)
        ensures
            r == WindowSetting(1920u32, 1080u32),
    {
        WindowSetting(1920, 1080)
    }
}

} // verus!
