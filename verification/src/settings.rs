//! Persistent user settings: the hotkey letters and the save directory.

use vstd::prelude::*;
use vstd::string::StringExecFns;

verus! {

/// One letter per shortcut (combined with Control by the hotkey
/// collaborator) and the directory screenshots are saved into.
#[derive(Debug, Clone)]
pub struct Settings {
    pub quick: String,
    pub new_screenshot: String,
    pub save: String,
    pub pen: String,
    pub rubber: String,
    pub path: String,
}

impl Default for Settings {
    /// The out-of-the-box settings.
    fn default() -> (out: Settings)
        ensures
            out.quick@ == "Q"@,
            out.new_screenshot@ == "N"@,
            out.save@ == "S"@,
            out.pen@ == "P"@,
            out.rubber@ == "R"@,
            out.path@ == "./"@,
    {
        Settings {
            quick: String::from_str("Q"),
            new_screenshot: String::from_str("N"),
            save: String::from_str("S"),
            pen: String::from_str("P"),
            rubber: String::from_str("R"),
            path: String::from_str("./"),
        }
    }
}

impl Settings {
    /// The directory screenshots are saved into.
    pub fn get_path(&self) -> (out: String)
        ensures
            out@ == self.path@,
    {
        self.path.clone()
    }

    /// Whether every hotkey holds at least one character; settings that
    /// fail this are rejected when written out and replaced with the
    /// defaults.
    pub fn hotkeys_valid(&self) -> (out: bool)
        ensures
            out <==> (self.quick@.len() >= 1 && self.new_screenshot@.len() >= 1 && self.save@.len()
                >= 1 && self.pen@.len() >= 1 && self.rubber@.len() >= 1),
    {
        !self.quick.as_str().is_empty() && !self.new_screenshot.as_str().is_empty()
            && !self.save.as_str().is_empty() && !self.pen.as_str().is_empty()
            && !self.rubber.as_str().is_empty()
    }
}

} // verus!
