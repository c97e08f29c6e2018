//! The global shortcut vocabulary and the policy deciding which
//! shortcuts each application state keeps registered.  Registration
//! itself is the platform collaborator's concern.

use vstd::prelude::*;

verus! {

/// The five global shortcuts.
#[derive(Clone, Copy, Debug, PartialEq, Eq, Structural)]
pub enum KeyType {
    Quick,
    NewScreenshot,
    Save,
    Pen,
    Rubber,
}

/// The shortcut regimes the application moves through.
#[derive(Clone, Copy, Debug, PartialEq, Eq, Structural)]
pub enum ActiveShortcuts {
    ScreenshotDone,
    ScreenshotWaiting,
    Pause,
}

/// Which shortcuts each regime keeps registered: none while paused, only
/// the capture shortcuts while waiting for a screenshot, all of them once
/// a screenshot is on screen.
pub open spec fn shortcut_enabled_spec(mode: ActiveShortcuts, key: KeyType) -> bool {
    match mode {
        ActiveShortcuts::Pause => false,
        ActiveShortcuts::ScreenshotWaiting => key == KeyType::Quick || key
            == KeyType::NewScreenshot,
        ActiveShortcuts::ScreenshotDone => true,
    }
}

/// Decides whether `key` is registered under `mode`.
pub fn shortcut_enabled(mode: ActiveShortcuts, key: KeyType) -> (out: bool)
    ensures
        out == shortcut_enabled_spec(mode, key),
{
    match mode {
        ActiveShortcuts::Pause => false,
        ActiveShortcuts::ScreenshotWaiting => match key {
            KeyType::Quick => true,
            KeyType::NewScreenshot => true,
            _ => false,
        },
        ActiveShortcuts::ScreenshotDone => true,
    }
}

} // verus!
