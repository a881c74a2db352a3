//! The character index: the scoring alphabet of `0`-`9` followed by `a`-`z`.
//!
//! Each byte value is mapped to a position in this alphabet of size 36; a
//! byte outside the alphabet maps to position 0, a deliberate quirk of the
//! scoring scheme that callers rely on.

use vstd::prelude::*;

verus! {

/// The number of characters in the scoring alphabet: ten digits and
/// twenty-six lowercase letters.
pub open spec fn alphabet_size() -> int {
    36
}

/// The alphabet entry at position `j`: code points 48..58 (`0`-`9`) come
/// first, then 97..123 (`a`-`z`).
pub open spec fn alphabet_at(j: int) -> int {
    if j < 10 {
        48 + j
    } else {
        87 + j
    }
}

/// The position of code point `code` in the scoring alphabet, with every
/// code point outside the alphabet resolving to position 0.
pub open spec fn code_position(code: int) -> int {
    if 48 <= code < 58 {
        code - 48
    } else if 97 <= code < 123 {
        code - 87
    } else {
        0
    }
}

/// The position of a character in the scoring alphabet.
pub open spec fn char_position(c: char) -> int {
    code_position(c as int)
}

/// The fixed lookup table from a code point to its alphabet position.
pub struct Positioner {
    pub index: Vec<usize>,
}

impl Positioner {
    /// The table holds exactly the scoring alphabet, in order.
    pub open spec fn wf(self) -> bool {
        &&& self.index.len() == alphabet_size()
        &&& forall|j: int| 0 <= j < 36 ==> self.index[j] == alphabet_at(j)
    }

    /// Return the position of code point `chr` in the alphabet (0 when the
    /// code point is not in it), together with the alphabet size.
    pub fn position(&self, chr: usize) -> (r: (usize, usize))
        requires
            self.wf(),
        ensures
            r.0 == code_position(chr as int),
            r.1 == alphabet_size(),
    {
        let mut j: usize = 0;
        while j < self.index.len()
            invariant
                self.wf(),
                0 <= j <= 36,
                forall|k: int| 0 <= k < j ==> self.index[k] != chr,
            decreases 36 - j,
        {
            if self.index[j] == chr {
                proof {
                    assert(self.index[j as int] == alphabet_at(j as int));
                }
                return (j, self.index.len());
            }
            j += 1;
        }
        proof {
            if 48 <= chr < 58 {
                assert(self.index[chr as int - 48] == alphabet_at(chr as int - 48));
            } else if 97 <= chr < 123 {
                assert(self.index[chr as int - 87] == alphabet_at(chr as int - 87));
            }
        }
        (0, self.index.len())
    }
}

/// Build the lookup table for the scoring alphabet: the code point ranges
/// 48..58 and 97..123, concatenated.
pub fn positioner() -> (r: Positioner)
    ensures
        r.wf(),
{
    let mut index: Vec<usize> = Vec::new();
    let mut code: usize = 48;
    while code < 58
        invariant
            48 <= code <= 58,
            index.len() == code - 48,
            forall|j: int| 0 <= j < index.len() ==> index[j] == alphabet_at(j),
        decreases 58 - code,
    {
        index.push(code);
        code += 1;
    }
    let mut code: usize = 97;
    while code < 123
        invariant
            97 <= code <= 123,
            index.len() == 10 + code - 97,
            forall|j: int| 0 <= j < index.len() ==> index[j] == alphabet_at(j),
        decreases 123 - code,
    {
        index.push(code);
        code += 1;
    }
    Positioner { index }
}

/// Return the position of code point `chr` in the scoring alphabet, with
/// code points outside the alphabet resolving to position 0.
pub fn position_for(chr: usize) -> (r: usize)
    ensures
        r == code_position(chr as int),
{
    let p = positioner();
    let (pos, _total) = p.position(chr);
    pos
}

} // verus!
