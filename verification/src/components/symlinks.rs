//! The links that are planned for a theme, as the symlinks panel lists
//! them.

use vstd::prelude::*;

verus! {

/// The planned links: pairs of link name and target name.
#[derive(Debug)]
pub struct SymlinksState {
    pub planned: Vec<(String, String)>,
}

impl Default for SymlinksState {
    fn default() -> (r: SymlinksState)
        ensures
            r.planned@ == Seq::<(String, String)>::empty(),
    {
        SymlinksState { planned: Vec::new() }
    }
}

impl SymlinksState {
    /// The number of planned links.
    pub fn count(&self) -> (n: usize)
        ensures
            n == self.planned@.len(),
    {
        self.planned.len()
    }
}

} // verus!
