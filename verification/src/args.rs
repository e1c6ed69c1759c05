use vstd::prelude::*;
use vstd::string::*;

verus! {

/// What the user asked for on the command line.
#[derive(Debug)]
pub struct Args {
    pub command: Commands,
}

/// The commands of the tool.
#[derive(Debug)]
pub enum Commands {
    /// Creates a new project in the directory `path`.
    New { path: String },
    /// Clears all build and cache files.
    Clear,
    /// Runs the editor.
    Edit,
    /// Runs the game.
    Run,
    /// Compiles the records and assets into one game file.
    Compile,
    /// Unpacks a game file into records; the file of the last build where none is named.
    Decompile { input_path: Option<String> },
}

/// One piece of work that a command asks for.
#[derive(Debug, Clone, Copy, PartialEq, Eq, Structural)]
pub enum Task {
    /// Lay out a new project directory.
    New,
    /// Make sure that the working directories and the converter are in place.
    EnsureCommonExists,
    /// Remove the build and cache directories.
    Clear,
    /// Build the game file.
    Compile,
    /// Unpack a game file.
    Decompile,
}

/// The work that a command asks for, in the order in which it is done. Every
/// command but `New` works inside a project and first has the working
/// directories made; `Run` builds the game; `Edit` asks for nothing.
pub open spec fn tasks_of(command: Commands) -> Seq<Task> {
    match command {
        Commands::New { .. } => seq![Task::New],
        Commands::Clear => seq![Task::EnsureCommonExists, Task::Clear],
        Commands::Edit => seq![],
        Commands::Run => seq![Task::Compile],
        Commands::Compile => seq![Task::EnsureCommonExists, Task::Compile],
        Commands::Decompile { .. } => seq![Task::EnsureCommonExists, Task::Decompile],
    }
}

impl Args {
    /// The work that the command line asks for, in order.
    pub fn tasks(&self) -> (list: Vec<Task>)
        ensures
            list@ == tasks_of(self.command),
    {
        let mut list: Vec<Task> = Vec::new();
        match &self.command {
            Commands::New { .. } => {
                list.push(Task::New);
            },
            Commands::Clear => {
                list.push(Task::EnsureCommonExists);
                list.push(Task::Clear);
            },
            Commands::Edit => {},
            Commands::Run => {
                list.push(Task::Compile);
            },
            Commands::Compile => {
                list.push(Task::EnsureCommonExists);
                list.push(Task::Compile);
            },
            Commands::Decompile { .. } => {
                list.push(Task::EnsureCommonExists);
                list.push(Task::Decompile);
            },
        }
        assert(list@ =~= tasks_of(self.command));
        list
    }
}

/// The game file that unpacking reads: the one that was named, and else the
/// game of the last build.
pub fn decompile_input(input_path: Option<String>) -> (path: String)
    ensures
        path@ == match input_path {
            Some(named) => named@,
            None => "build/out.omwgame"@,
        },
{
    match input_path {
        Some(named) => named,
        None => String::from_str("build/out.omwgame"),
    }
}

} // verus!
