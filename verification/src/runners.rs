//! Locating a requested script in the module directory and turning the
//! outcome of a run into the exit code the launcher owes.

use vstd::prelude::*;
use crate::text::{str_eq, push_char};

verus! {

/// The path of a script inside the module directory.
pub open spec fn joined_path(dir: Seq<char>, name: Seq<char>) -> Seq<char> {
    dir + seq!['/'] + name
}

/// How one attempt to run a script ended, as reported by the unverified
/// shell around the library.
pub enum RunStatus {
    /// The child process exited normally with this status code.
    Exited(i32),
    /// The child process was terminated without an exit code (by a signal).
    Signaled,
    /// The interpreter process could not be launched at all.
    LaunchFailed,
    /// The requested script is not present in the module directory.
    NotFound,
}

/// The exit code owed for a run outcome: the child's own code when it
/// exited normally, and the generic failure code 1 otherwise.
pub open spec fn exit_code_of(outcome: RunStatus) -> int {
    match outcome {
        RunStatus::Exited(k) => k as int,
        _ => 1,
    }
}

/// Maps a run outcome to the launcher's exit code.  A script exiting with
/// code k yields exactly k; a missing script, a signaled child, and an
/// unlaunchable interpreter all yield 1.
pub fn run_exit_code(outcome: &RunStatus) -> (code: i32)
    ensures
        code as int == exit_code_of(*outcome),
{
    match outcome {
        RunStatus::Exited(k) => *k,
        RunStatus::Signaled => 1,
        RunStatus::LaunchFailed => 1,
        RunStatus::NotFound => 1,
    }
}

/// Resolves a requested script name to its path inside the module
/// directory, or reports absence.  `entries` holds the names of the regular
/// files residing directly in the directory, so a name is resolved only to
/// an existing regular file, never to a directory.
pub fn find_script(module_dir: &str, entries: &Vec<String>, script_name: &str) -> (r: Option<
    String,
>)
    ensures
        match r {
            Option::Some(p) => p@ == joined_path(module_dir@, script_name@) && exists|i: int|
                0 <= i < entries@.len() && entries@[i]@ == script_name@,
            Option::None => forall|i: int| 0 <= i < entries@.len() ==> entries@[i]@ != script_name@,
        },
{
    let mut idx: usize = 0;
    let mut found = false;
    while idx < entries.len()
        invariant
            idx <= entries@.len(),
            found ==> exists|i: int| 0 <= i < entries@.len() && entries@[i]@ == script_name@,
            !found ==> forall|j: int| 0 <= j < idx ==> entries@[j]@ != script_name@,
        decreases entries@.len() - idx,
    {
        if str_eq(entries[idx].as_str(), script_name) {
            found = true;
        }
        idx = idx + 1;
    }
    if found {
        let mut p = module_dir.to_owned();
        push_char(&mut p, '/');
        p.append(script_name);
        proof {
            assert(p@ =~= joined_path(module_dir@, script_name@));
        }
        Option::Some(p)
    } else {
        Option::None
    }
}

} // verus!
