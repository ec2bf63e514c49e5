//! The panel that has the keyboard focus, and how the focus moves.

use vstd::prelude::*;

verus! {

/// The panels of the interactive layer.
#[derive(Debug, Clone, Copy, PartialEq, Eq, Structural)]
pub enum Focus {
    FileBrowser,
    Runner,
    Overrides,
    Editor,
    Logs,
    Mapping,
}

impl Focus {
    /// The panel that follows in the cycle. The mapping panel takes part
    /// only while it is shown.
    pub open spec fn spec_next(self, show_mapping: bool) -> Focus {
        match self {
            Focus::FileBrowser => Focus::Runner,
            Focus::Runner => Focus::Overrides,
            Focus::Overrides => Focus::Editor,
            Focus::Editor => Focus::Logs,
            Focus::Logs => if show_mapping {
                Focus::Mapping
            } else {
                Focus::FileBrowser
            },
            Focus::Mapping => Focus::FileBrowser,
        }
    }

    /// The panel that precedes in the cycle.
    pub open spec fn spec_prev(self, show_mapping: bool) -> Focus {
        match self {
            Focus::FileBrowser => if show_mapping {
                Focus::Mapping
            } else {
                Focus::Logs
            },
            Focus::Runner => Focus::FileBrowser,
            Focus::Overrides => Focus::Runner,
            Focus::Editor => Focus::Overrides,
            Focus::Logs => Focus::Editor,
            Focus::Mapping => Focus::Logs,
        }
    }

    /// The panel that follows in the cycle.
    pub fn next(&self, show_mapping: bool) -> (r: Focus)
        ensures
            r == self.spec_next(show_mapping),
    {
        match self {
            Focus::FileBrowser => Focus::Runner,
            Focus::Runner => Focus::Overrides,
            Focus::Overrides => Focus::Editor,
            Focus::Editor => Focus::Logs,
            Focus::Logs => {
                if show_mapping {
                    Focus::Mapping
                } else {
                    Focus::FileBrowser
                }
            },
            Focus::Mapping => Focus::FileBrowser,
        }
    }

    /// The panel that precedes in the cycle.
    pub fn prev(&self, show_mapping: bool) -> (r: Focus)
        ensures
            r == self.spec_prev(show_mapping),
    {
        match self {
            Focus::FileBrowser => {
                if show_mapping {
                    Focus::Mapping
                } else {
                    Focus::Logs
                }
            },
            Focus::Runner => Focus::FileBrowser,
            Focus::Overrides => Focus::Runner,
            Focus::Editor => Focus::Overrides,
            Focus::Logs => Focus::Editor,
            Focus::Mapping => Focus::Logs,
        }
    }

    /// The panel to the left, if there is one.
    pub fn left(&self) -> (r: Option<Focus>)
        ensures
            r == (match *self {
                Focus::Editor => Some(Focus::FileBrowser),
                Focus::Logs => Some(Focus::Overrides),
                Focus::Mapping => Some(Focus::Editor),
                _ => None::<Focus>,
            }),
    {
        match self {
            Focus::Editor => Some(Focus::FileBrowser),
            Focus::Logs => Some(Focus::Overrides),
            Focus::Mapping => Some(Focus::Editor),
            _ => None,
        }
    }

    /// The panel to the right, if there is one. The mapping panel can be
    /// reached only while it is shown.
    pub fn right(&self, show_mapping: bool) -> (r: Option<Focus>)
        ensures
            r == (match *self {
                Focus::FileBrowser => Some(Focus::Editor),
                Focus::Runner => Some(Focus::Editor),
                Focus::Overrides => Some(Focus::Logs),
                Focus::Editor | Focus::Logs => if show_mapping {
                    Some(Focus::Mapping)
                } else {
                    None::<Focus>
                },
                Focus::Mapping => None::<Focus>,
            }),
    {
        match self {
            Focus::FileBrowser => Some(Focus::Editor),
            Focus::Runner => Some(Focus::Editor),
            Focus::Overrides => Some(Focus::Logs),
            Focus::Editor | Focus::Logs => {
                if show_mapping {
                    Some(Focus::Mapping)
                } else {
                    None
                }
            },
            _ => None,
        }
    }

    /// The panel above, if there is one.
    pub fn up(&self) -> (r: Option<Focus>)
        ensures
            r == (match *self {
                Focus::Runner => Some(Focus::FileBrowser),
                Focus::Overrides => Some(Focus::Runner),
                Focus::Logs => Some(Focus::Editor),
                _ => None::<Focus>,
            }),
    {
        match self {
            Focus::Runner => Some(Focus::FileBrowser),
            Focus::Overrides => Some(Focus::Runner),
            Focus::Logs => Some(Focus::Editor),
            _ => None,
        }
    }

    /// The panel below, if there is one.
    pub fn down(&self) -> (r: Option<Focus>)
        ensures
            r == (match *self {
                Focus::FileBrowser => Some(Focus::Runner),
                Focus::Runner => Some(Focus::Overrides),
                Focus::Editor => Some(Focus::Logs),
                _ => None::<Focus>,
            }),
    {
        match self {
            Focus::FileBrowser => Some(Focus::Runner),
            Focus::Runner => Some(Focus::Overrides),
            Focus::Editor => Some(Focus::Logs),
            _ => None,
        }
    }
}

/// Moving the focus forward and then back returns to the panel, as long
/// as the mapping panel has the focus only while it is shown.
pub proof fn lemma_focus_cycle(f: Focus, show_mapping: bool)
    requires
        f == Focus::Mapping ==> show_mapping,
    ensures
        f.spec_next(show_mapping).spec_prev(show_mapping) == f,
        f.spec_prev(show_mapping).spec_next(show_mapping) == f,
{
}

} // verus!
