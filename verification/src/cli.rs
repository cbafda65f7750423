//! What a command line asks for, and what that takes.
use vstd::prelude::*;

use crate::entry::AliasKind;
use crate::error::AmError;
use crate::listing::ListFilter;
use crate::paths;

verus! {

/// What am can be asked to do.
pub enum Cmd {
    /// Show the aliases that the filter selects.
    List(ListFilter),
    /// Create an alias, with what is given of it.
    New { kind: Option<AliasKind>, args: Vec<String> },
    /// Delete an alias.
    Delete { name: Option<String>, yes: bool },
    /// Copy am itself into a folder.
    Install { dir: Option<String> },
}

/// What is to be done.
pub enum Task {
    /// Show the help.
    Help,
    Run(Cmd),
}

/// The home directory and the files in it that am looks after.
pub struct Files {
    pub home: String,
    pub alias_path: String,
    pub profile_path: String,
}

/// What is to be done, and the files that are set up first, if any.
pub struct Job {
    pub files: Option<Files>,
    pub task: Task,
}

// ---------------------------------------------------------------------------
// Surroundings
// ---------------------------------------------------------------------------

/// The home directory by the value of `HOME`. An empty value is none.
pub fn home_dir(home: Option<&str>) -> (r: Result<String, AmError>)
    ensures
        match r {
            Ok(h) => paths::optional_text(home) == Some(h@) && h@.len() > 0,
            Err(e) => (home matches Some(h) ==> h@.len() == 0) && e == AmError::HomeNotSet,
        },
{
    match home {
        Some(h) => if h.is_empty() {
            Err(AmError::HomeNotSet)
        } else {
            Ok(h.to_string())
        },
        None => Err(AmError::HomeNotSet),
    }
}

/// Checks that there is somebody to ask.
pub fn ensure_interactive(interactive: bool) -> (r: Result<(), AmError>)
    ensures
        match r {
            Ok(()) => interactive,
            Err(e) => !interactive && e == AmError::NotInteractive,
        },
{
    if interactive {
        Ok(())
    } else {
        Err(AmError::NotInteractive)
    }
}

// ---------------------------------------------------------------------------
// Dispatch
// ---------------------------------------------------------------------------

/// What a command line asks for: the help, where it names no command.
pub open spec fn task_of(command: Option<Cmd>) -> Task {
    match command {
        None => Task::Help,
        Some(c) => Task::Run(c),
    }
}

/// Whether a command leaves the files in the home directory alone.
pub open spec fn leaves_files(command: Option<Cmd>) -> bool {
    command matches Some(c) && c is Install
}

/// Whether this is what a command line leads to.
pub open spec fn is_job(
    r: Result<Job, AmError>,
    command: Option<Cmd>,
    home: Option<Seq<char>>,
) -> bool {
    match r {
        Ok(job) => job.task == task_of(command) && match job.files {
            None => leaves_files(command),
            Some(f) => !leaves_files(command) && home == Some(f.home@) && f.home@.len() > 0
                && f.alias_path@ == paths::joined(f.home@, paths::ALIAS_FILE_NAME@)
                && f.profile_path@ == paths::joined(f.home@, paths::PROFILE_FILE_NAME@),
        },
        Err(e) => !leaves_files(command) && (home matches Some(h) ==> h.len() == 0) && e
            == AmError::HomeNotSet,
    }
}

/// What a command line leads to. Everything but installing sets up the files
/// in the home directory first, which takes a home directory.
pub fn run(command: Option<Cmd>, home: Option<&str>) -> (r: Result<Job, AmError>)
    ensures
        is_job(r, command, paths::optional_text(home)),
{
    if let Some(Cmd::Install { .. }) = &command {
        let task: Task = match command {
            Some(c) => Task::Run(c),
            None => Task::Help,
        };
        return Ok(Job { files: None, task });
    }
    match home_dir(home) {
        Ok(h) => {
            let alias_path: String = paths::alias_file_path(h.as_str());
            let profile_path: String = paths::profile_path(h.as_str());
            let task: Task = match command {
                Some(c) => Task::Run(c),
                None => Task::Help,
            };
            Ok(Job { files: Some(Files { home: h, alias_path, profile_path }), task })
        },
        Err(e) => Err(e),
    }
}

// ---------------------------------------------------------------------------
// Laws
// ---------------------------------------------------------------------------

/// Installing needs no home directory and touches no file in it, whatever the
/// folder is.
pub proof fn law_installing_leaves_the_files_alone(
    r: Result<Job, AmError>,
    dir: Option<String>,
    home: Option<Seq<char>>,
)
    requires
        is_job(r, Some(Cmd::Install { dir }), home),
    ensures
        r matches Ok(job) && job.files is None && job.task == Task::Run(Cmd::Install { dir }),
{
}

/// Everything else is done as it was asked, with the two files in the home
/// directory set up first; without a home directory it is refused. No command
/// at all asks for the help.
pub proof fn law_other_commands_set_up_the_files(
    r: Result<Job, AmError>,
    command: Option<Cmd>,
    home: Option<Seq<char>>,
)
    requires
        is_job(r, command, home),
        command matches Some(c) ==> !(c is Install),
    ensures
        home is None || (home->0).len() == 0 ==> r matches Err(AmError::HomeNotSet),
        home is Some && (home->0).len() > 0 ==> (r matches Ok(job) && {
            &&& command is None ==> job.task == Task::Help
            &&& command matches Some(c) ==> job.task == Task::Run(c)
            &&& job.files matches Some(f) && f.home@ == home->0
            &&& (home->0).last() != '/' ==> (job.files->0).alias_path@ == home->0
                + "/.alias-management"@ && (job.files->0).profile_path@ == home->0
                + "/.bash_profile"@
        }),
{
    if home is Some && (home->0).len() > 0 {
        paths::law_files_lie_at_home(home->0);
    }
}

} // verus!
