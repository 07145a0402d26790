//! The configuration of one run, and how it is resolved.

use vstd::prelude::*;
use vstd::std_specs::iter::IteratorSpec;

verus! {

/// The name of the environment variable that switches a search to ignoring case. That it is
/// set counts, whatever it is set to.
pub const IGNORE_CASE_VARIABLE: &'static str = "IGNORE_CASE";

/// What one search is run with.
pub struct Config {
    /// The text that is looked for.
    pub query: String,
    /// The path of the file that is searched.
    pub file_path: String,
    /// Whether upper and lower case count as the same.
    pub ignore_case: bool,
}

impl Config {
    /// Resolves the configuration from the arguments that the process was started with and
    /// from what the environment holds under [`IGNORE_CASE_VARIABLE`]: `Some` of its value
    /// where the variable is set, `None` where it is not.
    ///
    /// The first argument, the name under which the program was called, is passed over. The
    /// next two are the query and the file path, neither of them looked into; any further ones
    /// are ignored. Where one of the two is missing, the result is a message that says so.
    ///
    /// The outcome is stated for argument sources that hand out their items one after the
    /// other and then stay at their end; of others nothing is promised.
    pub fn build(
        mut args: impl Iterator<Item = String>,
        ignore_case_setting: Option<String>,
    ) -> (built: Result<Config, &'static str>)
        ensures
            args.obeys_prophetic_iter_laws() ==> match built {
                Ok(config) => {
                    &&& args.remaining().len() >= 3
                    &&& config.query@ == args.remaining()[1]@
                    &&& config.file_path@ == args.remaining()[2]@
                    &&& config.ignore_case == ignore_case_setting.is_some()
                },
                Err(message) => {
                    &&& args.remaining().len() < 3
                    &&& message@ == "not enough arguments"@
                },
            },
    {
        args.next();
        match (args.next(), args.next()) {
            (Some(query), Some(file_path)) => Ok(
                Config { query, file_path, ignore_case: ignore_case_setting.is_some() },
            ),
            _ => Err("not enough arguments"),
        }
    }
}

} // verus!
