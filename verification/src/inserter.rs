//! Merging a new code fragment into existing file text.

use vstd::prelude::*;
use vstd::string::*;
use crate::text::has_sub_at;

verus! {

/// What merging yields: the new code alone when there is no existing text,
/// otherwise the existing text, a blank separator line, then the new code.
pub open spec fn insert_spec(existing: Seq<char>, code: Seq<char>) -> Seq<char> {
    if existing.len() == 0 {
        code
    } else {
        existing + "\n\n"@ + code
    }
}

/// Merges a new code fragment into existing file text.
pub struct CodeInserter;

impl CodeInserter {
    pub fn new() -> (r: CodeInserter) {
        CodeInserter
    }

    /// Merge `new_code` into `existing`.
    pub fn insert_code(&self, existing: &str, new_code: &str) -> (r: String)
        ensures
            r@ == insert_spec(existing@, new_code@),
    {
        if existing.unicode_len() == 0 {
            new_code.to_owned()
        } else {
            let mut out = existing.to_owned();
            out.append("\n\n");
            out.append(new_code);
            proof {
                assert(out@ =~= existing@ + "\n\n"@ + new_code@);
            }
            out
        }
    }
}

/// The merged text keeps every character of the existing text as a prefix
/// and carries every character of the new code, unmodified and contiguous,
/// as a suffix.
pub proof fn lemma_insert_preserves(existing: Seq<char>, code: Seq<char>)
    ensures
        insert_spec(existing, code).subrange(
            insert_spec(existing, code).len() - code.len(),
            insert_spec(existing, code).len() as int,
        ) == code,
        has_sub_at(insert_spec(existing, code), code, insert_spec(existing, code).len() - code.len()),
        insert_spec(existing, code).subrange(0, existing.len() as int) == existing,
{
    let m = insert_spec(existing, code);
    assert(m.subrange(m.len() - code.len(), m.len() as int) =~= code);
    assert(m.subrange(0, existing.len() as int) =~= existing);
}

} // verus!
