//! The nucleotide alphabet: valid bases, the wildcard, and upper-casing.

use vstd::prelude::*;

verus! {

/// A character is a base when it is one of the four nucleotides or the
/// wildcard, in either case.
pub open spec fn is_base_spec(c: char) -> bool {
    ||| c == 'a'
    ||| c == 'c'
    ||| c == 'g'
    ||| c == 't'
    ||| c == 'n'
    ||| c == 'A'
    ||| c == 'C'
    ||| c == 'G'
    ||| c == 'T'
    ||| c == 'N'
}

/// The wildcard base, which matches any other base.
pub open spec fn is_wildcard_spec(c: char) -> bool {
    c == 'N' || c == 'n'
}

/// Tests whether a character is a valid base.
pub fn is_base(char_val: char) -> (r: bool)
    ensures
        r == is_base_spec(char_val),
{
    match char_val {
        'a' | 'c' | 'g' | 't' | 'n' | 'A' | 'C' | 'G' | 'T' | 'N' => true,
        _ => false,
    }
}

/// Tests whether a character is the wildcard base.
pub fn is_wildcard(char_val: char) -> (r: bool)
    ensures
        r == is_wildcard_spec(char_val),
{
    char_val == 'N' || char_val == 'n'
}

/// ASCII upper-casing, written out so that the encoding of text input is
/// fully specified.
pub open spec fn upper_char(c: char) -> char {
    match c {
        'a' => 'A',
        'b' => 'B',
        'c' => 'C',
        'd' => 'D',
        'e' => 'E',
        'f' => 'F',
        'g' => 'G',
        'h' => 'H',
        'i' => 'I',
        'j' => 'J',
        'k' => 'K',
        'l' => 'L',
        'm' => 'M',
        'n' => 'N',
        'o' => 'O',
        'p' => 'P',
        'q' => 'Q',
        'r' => 'R',
        's' => 'S',
        't' => 'T',
        'u' => 'U',
        'v' => 'V',
        'w' => 'W',
        'x' => 'X',
        'y' => 'Y',
        'z' => 'Z',
        _ => c,
    }
}

/// Upper-cases one ASCII letter; any other character passes through.
pub fn to_upper(c: char) -> (r: char)
    ensures
        r == upper_char(c),
{
    match c {
        'a' => 'A',
        'b' => 'B',
        'c' => 'C',
        'd' => 'D',
        'e' => 'E',
        'f' => 'F',
        'g' => 'G',
        'h' => 'H',
        'i' => 'I',
        'j' => 'J',
        'k' => 'K',
        'l' => 'L',
        'm' => 'M',
        'n' => 'N',
        'o' => 'O',
        'p' => 'P',
        'q' => 'Q',
        'r' => 'R',
        's' => 'S',
        't' => 'T',
        'u' => 'U',
        'v' => 'V',
        'w' => 'W',
        'x' => 'X',
        'y' => 'Y',
        'z' => 'Z',
        _ => c,
    }
}

} // verus!
