//! The command-line surface as plain data: the parsed arguments each
//! command runs with. Argument parsing itself happens outside; these types
//! are what the parsed invocation hands to the library's callers.

use vstd::prelude::*;

verus! {

/// Arguments of the build command: the configuration file, `name value`
/// global pairs, and the only-if-changed flag.
#[derive(Debug)]
pub struct Make {
    /// The yaml config file
    pub config_file: String,
    /// Global variables for all templates, as consecutive `name value`
    /// pairs; globals overwrite other variables with the same name.
    pub var: Option<Vec<String>>,
    /// Only build when layout or source files changed since the last build
    pub ifchanged: bool,
}

/// Arguments of the build command; an alternative spelling of [`Make`]
/// for callers that use this name.
#[derive(Debug)]
pub struct MakeArguments {
    /// The yaml config file
    pub config_file: String,
    /// Global variables for all templates, as consecutive `name value`
    /// pairs.
    pub var: Option<Vec<String>>,
    /// Only build when layout or source files changed since the last build
    pub ifchanged: bool,
}

/// Arguments of the two-file diff viewer.
#[derive(Debug)]
pub struct Diff {
    pub file1: String,
    pub file2: String,
}

/// Arguments of the run-time log scan.
#[derive(Debug)]
pub struct Checklogs {
    /// The run directory searched for log files
    pub rundir: String,
}

/// Arguments of the self-update client.
#[derive(Debug)]
pub struct Update {
    /// An authentication token, used for testing
    pub token: Option<String>,
}

/// Arguments of the schema export.
#[derive(Debug)]
pub struct Schema {}

/// Arguments of the diagram-to-PNG conversion.
#[derive(Debug)]
pub struct ToPngArgs {
    /// Input diagram file path
    pub input: String,
    /// Output PNG file path
    pub output: Option<String>,
}

/// Arguments of the diagram component extraction.
#[derive(Debug)]
pub struct ComponentsArgs {
    /// Input diagram file path
    pub input: String,
    /// Output CSV file path
    pub output: Option<String>,
}

/// The diagram subcommands.
#[derive(Debug)]
pub enum DrawioCommands {
    /// Convert diagram files to PNG
    ToPng(ToPngArgs),
    /// Extract components from diagram files
    Components(ComponentsArgs),
}

/// The diagram command with its subcommand.
#[derive(Debug)]
pub struct Drawio {
    pub command: DrawioCommands,
}

/// Every command the tool offers.
#[derive(Debug)]
pub enum Commands {
    /// Generate the configuration artifact
    Make(Make),
    /// Show the difference between two text files
    Diff(Diff),
    /// Scan run-time log files for error messages
    Checklogs(Checklogs),
    /// Check for new versions of this tool
    Update(Update),
    /// Work with diagram files
    Drawio(Drawio),
    /// Export the configuration schema
    Schema(Schema),
}

/// One parsed invocation.
#[derive(Debug)]
pub struct Cli {
    pub command: Commands,
}

} // verus!
