//! The flags handled before any command runs: printing the default or the
//! current configuration, overriding the configuration path, and writing
//! the manual pages. What to do is decided here; the surrounding program
//! performs the printing and writing and exits when asked.

use vstd::prelude::*;

use crate::cli::Cli;

verus! {

/// What the pre-command flags resolved to, in the order the program acts
/// on them.
#[derive(Clone, Debug, PartialEq, Eq)]
pub struct HookPlan {
    /// Warn that a given subcommand is suppressed by one of the flags.
    pub warn_suppressed: bool,
    /// Print the default configuration.
    pub print_default_config: bool,
    /// Load the configuration from this path instead of the default.
    pub config_override: Option<String>,
    /// Print the configuration in effect.
    pub print_config: bool,
    /// Write the manual pages and stop.
    pub write_man_pages: bool,
    /// Stop before any subcommand runs.
    pub exit_early: bool,
}

/// Resolves the pre-command flags: the configuration flags short-circuit a
/// given subcommand (with a warning), the override path is taken as given,
/// and the manual-page flag stops the run as well.
pub fn hooks(args: &Cli) -> (r: HookPlan)
    ensures
        r.warn_suppressed == ((args.gen_config || args.print_config) && args.command is Some),
        r.print_default_config == args.gen_config,
        (r.config_override matches Some(p) ==> (args.config matches Some(q) && p@ == q@)),
        (args.config matches Some(q) ==> (r.config_override matches Some(p) && p@ == q@)),
        r.print_config == args.print_config,
        r.write_man_pages == args.man_page,
        r.exit_early == (args.gen_config || args.print_config || args.man_page),
{
    let skip_main_logic = args.gen_config || args.print_config;
    HookPlan {
        warn_suppressed: skip_main_logic && args.command.is_some(),
        print_default_config: args.gen_config,
        config_override: match &args.config {
            Some(p) => Some(p.clone()),
            None => None,
        },
        print_config: args.print_config,
        write_man_pages: args.man_page,
        exit_early: skip_main_logic || args.man_page,
    }
}

} // verus!
