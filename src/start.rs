//! Start-up choices: how a second instance is handled, and the commands of
//! the program.
use vstd::prelude::*;

verus! {

/// What happens when an instance is already running.
#[derive(Clone, Copy, Debug, PartialEq, Eq, Structural)]
pub enum Restart {
    /// Keep the running instance; this one fails to start.
    Prev,
    /// End the running instance and take its place.
    Curr,
    /// Allow any number of instances.
    Many,
}

/// The commands of the program.
#[derive(Debug)]
pub enum Commands {
    /// Run the scripts of a configuration file.
    Run { config: String },
    /// Print the codes of released keys and buttons.
    Event,
    /// Print the pointer position.
    Point,
    /// Record input as script steps.
    Record,
}

/// The configuration file used when none is named.
pub open spec fn default_config_path() -> Seq<char> {
    seq!['c', 'o', 'n', 'f', 'i', 'g', '.', 't', 'o', 'm', 'l']
}

impl Default for Commands {
    fn default() -> (r: Self)
        ensures
            r matches Commands::Run { config } && config@ == default_config_path(),
    {
        let config = String::from_str("config.toml");
        proof {
            reveal_strlit("config.toml");
            assert(config@ =~= default_config_path());
        }
        Commands::Run { config }
    }
}

} // verus!
