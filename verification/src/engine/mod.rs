//! The stages of a scan: capturing types, checking pairs, and what a run owes.

use crate::text::{after_prefix, concat, strip_prefix, trim_end_char, trimmed_end_of};
use vstd::prelude::*;

pub mod capture;
pub mod durability;
pub mod outcomes;
pub mod pairs;
pub mod retype;
pub mod served_paths;
pub mod type_texts;
pub mod upload_boundary;

verus! {

/// A file path as it reads from a root directory; a path outside the root
/// stays as it is.
pub open spec fn path_under(path: Seq<char>, root: Seq<char>) -> Seq<char> {
    match after_prefix(path, trimmed_end_of(root, '/') + "/"@) {
        Some(rest) => rest,
        None => path,
    }
}

pub fn repo_relative(path: &str, root: &str) -> (r: String)
    ensures
        r@ == path_under(path@, root@),
{
    let base = concat(trim_end_char(root, '/').as_str(), "/");
    match strip_prefix(path, base.as_str()) {
        Some(rest) => rest,
        None => path.to_owned(),
    }
}

} // verus!
