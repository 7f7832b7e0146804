//! ASCII lowercasing of entered words.
//!
//! The decoder folds every entered word to ASCII lowercase before it is
//! recorded in the word history or handed to the language model, so that
//! context tracking is insensitive to how the host capitalized the word.

use vstd::prelude::*;

verus! {

/// ASCII lowercase of one character: `'A' ..= 'Z'` shift down by 32,
/// every other character is unchanged.
pub open spec fn lower_char(c: char) -> char {
    if 65 <= c as u32 && c as u32 <= 90 {
        ((c as u32 + 32) as u8) as char
    } else {
        c
    }
}

/// ASCII lowercase of a character sequence, character by character.
pub open spec fn lower_seq(s: Seq<char>) -> Seq<char> {
    s.map_values(|c: char| lower_char(c))
}

/// Relies on `String::push`: appends the given character to the end of
/// the string.
#[verifier::external_body]
fn push_char(s: &mut String, c: char)
    ensures
        final(s)@ == old(s)@.push(c),
{
    s.push(c);
}

/// ASCII lowercase of one character.
pub fn to_lower_char(c: char) -> (r: char)
    ensures
        r == lower_char(c),
{
    let u = c as u32;
    if 65 <= u && u <= 90 {
        ((u + 32) as u8) as char
    } else {
        c
    }
}

/// ASCII lowercase of a string, character by character.
pub fn to_lowercase(word: &str) -> (r: String)
    ensures
        r@ == lower_seq(word@),
{
    let n = word.unicode_len();
    let mut out = String::new();
    let mut i: usize = 0;
    while i < n
        invariant
            0 <= i <= n == word@.len(),
            out@ == lower_seq(word@.take(i as int)),
        decreases n - i,
    {
        let c = word.get_char(i);
        let l = to_lower_char(c);
        push_char(&mut out, l);
        proof {
            assert(lower_seq(word@.take(i + 1)) =~= lower_seq(word@.take(i as int)).push(
                lower_char(word@[i as int])));
        }
        i = i + 1;
    }
    proof {
        assert(word@.take(n as int) =~= word@);
    }
    out
}

} // verus!
