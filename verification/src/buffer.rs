//! The buffer that carries an encoded response across the boundary.

use vstd::prelude::*;
use crate::error::{result_view, Cause, Failure};

verus! {

/// `bytes` holds no zero byte.
pub open spec fn nul_free(bytes: Seq<u8>) -> bool {
    forall|i: int| 0 <= i < bytes.len() ==> #[trigger] bytes[i] != 0
}

/// What sealing gives: the text with one zero byte after it, unless the text
/// itself holds a zero byte.
pub open spec fn sealed(text: Seq<u8>) -> Result<Seq<u8>, Cause> {
    if nul_free(text) {
        Ok(text.push(0u8))
    } else {
        Err(Cause::InteriorNul)
    }
}

/// Turns an encoded response into the buffer handed to the caller: the text
/// followed by a terminating zero byte.
///
/// A reader that stops at the first zero byte would see a text with a zero
/// byte inside cut short, so such a text is refused and no buffer is made.
pub fn seal(text: Vec<u8>) -> (r: Result<Vec<u8>, Failure>)
    ensures
        result_view(r) == sealed(text@),
{
    let mut i: usize = 0;
    while i < text.len()
        invariant
            i <= text.len(),
            forall|j: int| 0 <= j < i ==> #[trigger] text@[j] != 0,
        decreases text.len() - i,
    {
        if text[i] == 0 {
            return Err(Failure::InteriorNul);
        }
        i += 1;
    }
    let mut buffer = text;
    buffer.push(0u8);
    Ok(buffer)
}

/// A sealed buffer ends at its only zero byte, and what stands before it is
/// the text.
pub proof fn lemma_sealed_reads_back(text: Seq<u8>)
    ensures
        sealed(text) matches Ok(buffer) ==> {
            &&& buffer.len() == text.len() + 1
            &&& buffer.last() == 0
            &&& buffer.drop_last() == text
            &&& nul_free(buffer.drop_last())
        },
{
    if nul_free(text) {
        assert(text.push(0u8).drop_last() =~= text);
    }
}

} // verus!
