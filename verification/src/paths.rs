//! The package-management directory layout under a home directory.

use vstd::prelude::*;
use vstd::string::StringExecFns;

verus! {

/// The directories that initialization creates.
pub struct PathConfig {
    pub path_dir: String,
    pub path_usr_dir: String,
    pub path_bin_dir: String,
    pub path_lib_dir: String,
    pub path_share_dir: String,
}

/// Computes the directory layout under the given home directory; creating
/// the directories on disk is the caller's part.
pub fn create_paths(home: &str) -> (r: PathConfig)
    ensures
        r.path_dir@ == home@ + "/.path"@,
        r.path_usr_dir@ == home@ + "/.path/usr"@,
        r.path_bin_dir@ == home@ + "/.path/usr/bin"@,
        r.path_lib_dir@ == home@ + "/.path/usr/lib"@,
        r.path_share_dir@ == home@ + "/.path/usr/share"@,
{
    PathConfig {
        path_dir: String::from_str(home).concat("/.path"),
        path_usr_dir: String::from_str(home).concat("/.path/usr"),
        path_bin_dir: String::from_str(home).concat("/.path/usr/bin"),
        path_lib_dir: String::from_str(home).concat("/.path/usr/lib"),
        path_share_dir: String::from_str(home).concat("/.path/usr/share"),
    }
}

} // verus!
