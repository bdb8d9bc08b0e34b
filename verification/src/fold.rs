//! Case folding, which this library takes from the standard library.

use vstd::prelude::*;

verus! {

/// The lowercase form of `text`, as `str::to_lowercase` computes it. It is a
/// function of the characters of `text` alone; nothing more is known of it
/// here than what the contract below states.
pub uninterp spec fn lowercase_of(text: Seq<char>) -> Seq<char>;

/// Specifies `str::to_lowercase` of the standard library, which is taken on
/// trust and not verified: it returns the lowercase form of its argument, and
/// the lowercase form of the empty string is the empty string.
pub assume_specification[ str::to_lowercase ](text: &str) -> (folded: String)
    ensures
        folded@ == lowercase_of(text@),
        text@.len() == 0 ==> folded@.len() == 0,
;

} // verus!
