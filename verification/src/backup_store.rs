//! The backup store: one snapshot per project and environment, kept under the
//! application directory. This module fixes where that snapshot lives and
//! which file marks a deployed version.
use vstd::prelude::*;
use vstd::string::StringExecFns;

verus! {

/// The path of the backup snapshot for `project` in `env`, as path segments
/// relative to the application directory: `backups/<project>/<env>`. The
/// caller creates the directory before reading or writing through it.
pub fn backup_segments(project: &str, env: &str) -> (r: Vec<String>)
    ensures
        r@.len() == 3,
        r@[0]@ == "backups"@,
        r@[1]@ == project@,
        r@[2]@ == env@,
{
    let mut r: Vec<String> = Vec::new();
    r.push(String::from_str("backups"));
    r.push(String::from_str(project));
    r.push(String::from_str(env));
    r
}

/// The name of the distinguished version marker file that a rollback sends
/// ahead of the bulk tree.
pub fn version_marker_name() -> (r: &'static str)
    ensures
        r@ == "version.json"@,
{
    "version.json"
}

} // verus!
