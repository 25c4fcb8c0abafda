//! Which file holds the log.
//!
//! The command line may name the file.  Where it does not, the log is the
//! file `proc.org` in the directory `org` under the home directory.

use vstd::prelude::*;

verus! {

/// Directory of the default log, under the home directory.
pub const DEFAULT_DIRECTORY: &'static str = "org";

/// Name of the default log, without its extension.
pub const DEFAULT_NAME: &'static str = "proc";

/// Extension of the default log.
pub const DEFAULT_EXTENSION: &'static str = "org";

/// The file that the command line names: its first argument after the name
/// of the program, whatever follows it.
pub open spec fn named_file(args: Seq<String>) -> Option<Seq<char>> {
    if args.len() > 1 {
        Some(args[1]@)
    } else {
        None
    }
}

/// The file to read: the one that the command line names, else `fallback`.
pub fn log_file(args: &Vec<String>, fallback: String) -> (r: String)
    ensures
        r@ == match named_file(args@) {
            Some(name) => name,
            None => fallback@,
        },
{
    if args.len() > 1 {
        args[1].clone()
    } else {
        fallback
    }
}

} // verus!
