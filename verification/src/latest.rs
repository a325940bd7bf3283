//! The note that new entries go to: the last of the collected paths.

use crate::path::{is_sorted, lemma_last_of_sorted_is_greatest, path_le, path_views, NotePath};
use vstd::prelude::*;
use vstd::string::StringExecFns;

verus! {

/// Why no note could be named.
#[derive(Clone, Copy, PartialEq, Eq, Structural, Debug)]
pub enum ResolveError {
    /// The archive holds no note file.
    NotFound,
}

impl ResolveError {
    /// The error in words.
    pub fn message(&self) -> (text: String)
        ensures
            text@ == "No `.md` files found in the specified directory"@,
    {
        String::from_str("No `.md` files found in the specified directory")
    }
}

/// The last of `not_files`, which is the greatest of them where they are
/// sorted, as collected paths are; `NotFound` where there is none.
pub fn get_last_not_path(not_files: &Vec<NotePath>) -> (r: Result<NotePath, ResolveError>)
    ensures
        r is Err <==> not_files.len() == 0,
        r matches Err(e) ==> e == ResolveError::NotFound,
        r matches Ok(last) ==> last@ == path_views(not_files@).last(),
        r matches Ok(last) ==> is_sorted(path_views(not_files@)) ==> forall|i: int|
            0 <= i < not_files.len() ==> path_le(#[trigger] path_views(not_files@)[i], last@),
{
    let count = not_files.len();
    if count == 0 {
        Err(ResolveError::NotFound)
    } else {
        proof {
            if is_sorted(path_views(not_files@)) {
                lemma_last_of_sorted_is_greatest(path_views(not_files@));
            }
        }
        Ok(not_files[count - 1].duplicate())
    }
}

} // verus!
