//! A single-word pig-latin transform.

use vstd::prelude::*;
use vstd::string::StrSliceExecFns;
use vstd::string::StringExecFns;

verus! {

/// Whether `c` is one of the uppercase vowels the transform recognises.
pub open spec fn is_vowel(c: char) -> bool {
    c == 'A' || c == 'E' || c == 'I' || c == 'O' || c == 'U'
}

/// Turn one word into pig latin.
///
/// An empty word stays empty.  A word opening with an uppercase vowel gets
/// `-hay` appended; any other word has its first character moved to the end,
/// set off by `-` and followed by `ay`.
pub fn piggify(wat: &str) -> (r: String)
    ensures
        wat@.len() == 0 ==> r@ == Seq::<char>::empty(),
        wat@.len() > 0 && is_vowel(wat@[0]) ==> r@ == wat@ + "-hay"@,
        wat@.len() > 0 && !is_vowel(wat@[0]) ==> r@ == wat@.subrange(1, wat@.len() as int)
            + "-"@ + wat@.subrange(0, 1) + "ay"@,
{
    let n = wat.unicode_len();
    if n == 0 {
        return String::new();
    }
    let first_character = wat.get_char(0);
    if first_character == 'A' || first_character == 'E' || first_character == 'I'
        || first_character == 'O' || first_character == 'U' {
        let r = String::from_str(wat).concat("-hay");
        r
    } else {
        let head = wat.substring_char(0, 1);
        let tail = wat.substring_char(1, n);
        let r = String::from_str(tail).concat("-").concat(head).concat("ay");
        r
    }
}

} // verus!
