//! Locating the environment dump between two delimiters.
use crate::error::Error;
use crate::text::{chars_of, find, find_from, lemma_find_from_occurs, occurs_at};
use vstd::prelude::*;
use vstd::string::StrSliceExecFns;

verus! {

/// The token that the shell prints right before and right after its `env` dump.
pub const DELIMITER: &'static str = "_SHELL_ENV_DELIMITER_";

/// The text strictly between the first occurrence of `delim` and the next
/// occurrence after it, if `text` holds two.
pub open spec fn frame_of(text: Seq<char>, delim: Seq<char>) -> Option<Seq<char>> {
    match find_from(text, delim, 0) {
        None => None,
        Some(i) => match find_from(text, delim, i + delim.len()) {
            None => None,
            Some(j) => Some(text.subrange(i + delim.len(), j)),
        },
    }
}

/// Cuts the frame out of the shell's output; without two delimiters the
/// output is invalid and is handed back whole in the error.
pub fn extract_frame(text: &str, delim: &str) -> (r: Result<String, Error>)
    ensures
        match frame_of(text@, delim@) {
            Some(f) => r matches Ok(s) && s@ == f,
            None => r matches Err(Error::InvalidOutput(t)) && t@ == text@,
        },
{
    let cs = chars_of(text);
    let ds = chars_of(delim);
    let n: usize = cs.len();
    match find(&cs, &ds, 0) {
        None => Err(Error::InvalidOutput(text.to_owned())),
        Some(i) => {
            proof {
                lemma_find_from_occurs(cs@, ds@, 0);
                assert(i + ds@.len() <= n);
            }
            let start = i + ds.len();
            match find(&cs, &ds, start) {
                None => Err(Error::InvalidOutput(text.to_owned())),
                Some(j) => {
                    proof {
                        lemma_find_from_occurs(cs@, ds@, start as int);
                    }
                    Ok(text.substring_char(start, j).to_owned())
                },
            }
        },
    }
}

/// Output that holds the delimiter at exactly one position has no frame.
pub proof fn lemma_single_delimiter_has_no_frame(text: Seq<char>, delim: Seq<char>, i: int)
    requires
        delim.len() > 0,
        occurs_at(text, delim, i),
        forall|k: int| #![trigger occurs_at(text, delim, k)] k != i ==> !occurs_at(text, delim, k),
    ensures
        frame_of(text, delim) is None,
{
    lemma_find_from_occurs(text, delim, 0);
    assert(find_from(text, delim, 0) is Some);
    let first = find_from(text, delim, 0)->Some_0;
    assert(occurs_at(text, delim, first));
    lemma_find_from_occurs(text, delim, i + delim.len());
}

} // verus!
