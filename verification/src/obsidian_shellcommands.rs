//! Configuration data for the shell-commands plugin of the note-taking
//! application: the plain settings records the tool fills in. Values that the
//! plugin schema leaves free-form, and the reading and writing of the
//! configuration file itself, live with the caller.

use vstd::prelude::*;

verus! {

pub struct DefaultShells {}

pub struct EnvironmentVariablePathAugmentations {}

/// Command-palette behaviour of the plugin.
pub struct CommandPalette {
    pub re_execute_last_shell_command: ReExecuteLastShellCommand,
}

pub struct ReExecuteLastShellCommand {
    pub enabled: bool,
    pub prefix: String,
}

/// The command line to run, per platform; only the default is filled in.
pub struct PlatformSpecificCommands {
    pub default: String,
}

pub struct Shells {}

/// Where a command's output is routed.
pub struct OutputHandlers {
    pub stdout: Stdout,
    pub stderr: Stderr,
}

pub struct Stdout {
    pub handler: String,
    pub convert_ansi_code: bool,
}

pub struct Stderr {
    pub handler: String,
    pub convert_ansi_code: bool,
}

pub struct Events {}

pub struct VariableDefaultValues {}

pub struct BuiltinVariables {}

pub struct CustomVariablesNotifyChangesVia {
    pub obsidian_uri: bool,
    pub output_assignment: bool,
}

} // verus!
