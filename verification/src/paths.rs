//! Resolving the module directory from the running executable's location,
//! with a fixed fallback, and locating scripts inside it.

use vstd::prelude::*;

verus! {

/// The candidate module directory anchored at the executable's own
/// directory: its sibling path `../src/modules`.
pub fn module_dir_candidate(exe_dir: &str) -> (r: String)
    ensures
        r@ == exe_dir@ + "/../src/modules"@,
{
    let mut p = exe_dir.to_owned();
    p.append("/../src/modules");
    p
}

/// Picks the module directory: the canonicalized executable-relative path
/// when canonicalization succeeded, else the fixed project-relative
/// fallback `src/modules`.
pub fn resolve_module_dir(canonical: Option<String>) -> (r: String)
    ensures
        match canonical {
            Option::Some(p) => r@ == p@,
            Option::None => r@ == "src/modules"@,
        },
{
    match canonical {
        Option::Some(p) => p,
        Option::None => "src/modules".to_owned(),
    }
}

/// Resolves a requested script name to its path inside the module
/// directory, or reports absence.  `entries` holds the names of the regular
/// files residing directly in the directory.
pub fn find_script(module_dir: &str, entries: &Vec<String>, script_name: &str) -> (r: Option<
    String,
>)
    ensures
        match r {
            Option::Some(p) => p@ == crate::runners::joined_path(module_dir@, script_name@)
                && exists|i: int| 0 <= i < entries@.len() && entries@[i]@ == script_name@,
            Option::None => forall|i: int| 0 <= i < entries@.len() ==> entries@[i]@ != script_name@,
        },
{
    crate::runners::find_script(module_dir, entries, script_name)
}

} // verus!
