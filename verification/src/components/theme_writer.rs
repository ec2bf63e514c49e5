//! The name of the theme that is being written, as the theme writer panel
//! shows it.

use crate::text::push_str;
use vstd::prelude::*;

verus! {

/// The name of the theme; empty while none is set.
#[derive(Debug)]
pub struct ThemeWriterState {
    pub name: String,
}

impl Default for ThemeWriterState {
    fn default() -> (r: ThemeWriterState)
        ensures
            r.name@ == Seq::<char>::empty(),
    {
        ThemeWriterState { name: String::new() }
    }
}

impl ThemeWriterState {
    /// The line that the panel shows.
    pub fn label(&self) -> (text: String)
        ensures
            self.name@.len() == 0 ==> text@ == "No theme name set"@,
            self.name@.len() > 0 ==> text@ == "Theme: "@ + self.name@,
    {
        let mut text = String::new();
        if self.name.as_str().unicode_len() == 0 {
            push_str(&mut text, "No theme name set");
            assert(text@ =~= "No theme name set"@);
        } else {
            push_str(&mut text, "Theme: ");
            push_str(&mut text, self.name.as_str());
            assert(text@ =~= "Theme: "@ + self.name@);
        }
        text
    }
}

} // verus!
