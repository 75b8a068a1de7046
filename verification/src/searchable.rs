//! The commands the interactive picker can hand a selected recipe to.

use vstd::prelude::*;

verus! {

/// A command that can act on a recipe chosen interactively.
#[derive(Clone, Copy, Debug, PartialEq, Eq, Structural)]
pub enum SearchableCommands {
    Evoke,
    Delete,
    List,
}

impl Default for SearchableCommands {
    /// Listing is the action taken when none was asked for.
    fn default() -> (r: SearchableCommands)
        ensures
            r == SearchableCommands::List,
    {
        SearchableCommands::List
    }
}

} // verus!
