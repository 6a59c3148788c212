//! What a run is set up with: the directory to walk and how to walk it.

use crate::text::opt_view;
use vstd::prelude::*;

verus! {

/// The directory walked where none is named: the current one.
pub open spec fn current_dir() -> Seq<char> {
    seq!['.']
}

/// The directory that a run walks: the one named by the option where
/// there is one, else the one named by position, else the current one.
pub open spec fn resolved_dir(option: Option<Seq<char>>, positional: Option<Seq<char>>) -> Seq<
    char,
> {
    match option {
        Some(d) => d,
        None => match positional {
            Some(d) => d,
            None => current_dir(),
        },
    }
}

/// How the tree is walked.
#[derive(Debug, Clone, Copy, PartialEq, Eq)]
pub struct WalkOptions {
    /// Whether hidden files and files named by ignore files are left out.
    pub standard_filters: bool,
    /// Whether a directory's git ignore files count only inside a git
    /// repository.
    pub require_git: bool,
}

/// The directory that a run walks.
pub fn effective_dir(option: Option<String>, positional: Option<String>) -> (dir: String)
    ensures
        dir@ == resolved_dir(opt_view(option), opt_view(positional)),
{
    match option {
        Some(d) => d,
        None => match positional {
            Some(d) => d,
            None => {
                proof {
                    reveal_strlit(".");
                }
                let d = ".".to_owned();
                assert(d@ =~= current_dir());
                d
            },
        },
    }
}

/// How the tree is walked. Unless ignore files are to be disregarded, the
/// standard filters apply, and ignore files count whether or not the
/// directory is inside a repository.
pub fn walk_options(disregard_ignore_files: bool) -> (o: WalkOptions)
    ensures
        o.standard_filters == !disregard_ignore_files,
        o.require_git == disregard_ignore_files,
{
    WalkOptions { standard_filters: !disregard_ignore_files, require_git: disregard_ignore_files }
}

} // verus!
