//! Paths of the store and its transient files inside the data directory.

use vstd::prelude::*;

verus! {

/// A file name under a directory: joined with a slash, or bare when the
/// directory is empty.
pub open spec fn spec_path_join(dir: Seq<char>, file: Seq<char>) -> Seq<char> {
    if dir.len() == 0 {
        file
    } else {
        dir + seq!['/'] + file
    }
}

/// Executable counterpart of [`spec_path_join`].
pub fn path_join(dir: &str, file: &str) -> (r: String)
    ensures
        r@ == spec_path_join(dir@, file@),
{
    if dir.unicode_len() == 0 {
        file.to_owned()
    } else {
        proof {
            reveal_strlit("/");
        }
        let mut r = dir.to_owned();
        r.append("/");
        r.append(file);
        proof {
            assert(r@ =~= spec_path_join(dir@, file@));
        }
        r
    }
}

} // verus!
