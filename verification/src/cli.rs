//! The argument records that the commands consume. Parsing the command
//! line into these records happens at the program boundary; the library
//! only defines their shape and acts on their values.

use vstd::prelude::*;

verus! {

/// Top-level invocation: an optional command and the flags handled before
/// any command runs.
#[derive(Clone, Debug)]
pub struct Cli {
    /// Command to be passed.
    pub command: Option<Commands>,
    /// Configuration file to load instead of the default.
    pub config: Option<String>,
    /// Display the default configuration.
    pub gen_config: bool,
    /// Display the current configuration.
    pub print_config: bool,
    /// Display the manual page.
    pub man_page: bool,
}

/// The commands.
#[derive(Clone, Debug)]
pub enum Commands {
    /// Build a recipe or several by name.
    Evoke(Evoke),
    /// Create a recipe by cloning the contents of the current directory.
    Imprint(Imprint),
    /// Delete a recipe.
    Delete(Delete),
    /// List recipes, or the contents of a specific one.
    List(List),
}

/// Arguments of the build command.
#[derive(Clone, Debug)]
pub struct Evoke {
    /// The recipes to build.
    pub recipes: Vec<String>,
    /// Target directory for recipe output.
    pub dir_name: Option<String>,
    /// The name of the instantiated recipe, replacing the name builtin.
    pub name: Option<String>,
    /// Print each destination path during the build.
    pub verbose: bool,
    /// Suppress warnings about destructive actions.
    pub suppress_warnings: bool,
}

/// Arguments of the capture command.
#[derive(Clone, Debug)]
pub struct Imprint {
    /// The name of the recipe to imprint.
    pub recipe: String,
    /// Description to be associated with the recipe.
    pub description: Option<String>,
    /// Suppress warnings about destructive actions.
    pub suppress_warnings: bool,
    /// Write the recipe as a Nix expression to this file instead of saving.
    pub to_nix: Option<String>,
    /// Paths and globs to exclude from the recipe.
    pub exclude: Vec<String>,
}

/// Arguments of the delete command.
#[derive(Clone, Debug)]
pub struct Delete {
    /// The recipe to delete.
    pub recipe: String,
}

/// Arguments of the list command.
#[derive(Clone, Debug)]
pub struct List {
    /// A specific recipe to show.
    pub recipe: Option<String>,
    /// Style of output.
    pub output_type: Option<crate::output_type::OutputType>,
}

} // verus!
