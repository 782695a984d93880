//! Seed and sample-text generation over fixed alphabets. The random draws
//! come from an outside crate behind a trusted wrapper; this layer
//! guarantees the length and the alphabet of what it builds — nothing more
//! can be promised of a random value.

use vstd::prelude::*;

verus! {

/// Relies on rand's thread-local generator: the draw lies in the given
/// range. Nothing more can be said of a random value.
#[verifier::external_body]
fn random_index(bound: usize) -> (r: usize)
    requires
        bound > 0,
    ensures
        r < bound,
{
    rand::random_range(0..bound)
}

/// Relies on std's String::from_utf8: ASCII bytes are valid UTF-8 and map
/// one-to-one to characters. The error arm is unreachable under the
/// precondition.
#[verifier::external_body]
fn ascii_string(bytes: Vec<u8>) -> (r: String)
    requires
        forall|i: int| 0 <= i < bytes@.len() ==> bytes@[i] < 128,
    ensures
        r@.len() == bytes@.len(),
        forall|i: int| 0 <= i < r@.len() ==> r@[i] == ((bytes@[i] as u32) as char),
{
    match String::from_utf8(bytes) {
        Ok(s) => s,
        Err(_) => String::new(),
    }
}

/// Membership in the seed alphabet: 'A' to 'Z' and '9'.
pub open spec fn seed_symbol_ok(c: char) -> bool {
    ('A' <= c && c <= 'Z') || c == '9'
}

/// The byte of the seed alphabet at a position: 'A' to 'Z' then '9'.
pub open spec fn seed_byte(i: int) -> u8 {
    if i < 26 {
        (65 + i) as u8
    } else {
        57
    }
}

/// Picks the seed alphabet byte at the given position.
fn seed_alphabet(i: usize) -> (r: u8)
    requires
        i < 27,
    ensures
        r == seed_byte(i as int),
        r < 128,
        seed_symbol_ok(((r as u32) as char)),
{
    if i < 26 {
        65 + (i as u8)
    } else {
        57
    }
}

/// A fresh 81-symbol seed drawn uniformly from the seed alphabet.
pub fn make_random_seed() -> (r: String)
    ensures
        r@.len() == 81,
        forall|i: int| 0 <= i < r@.len() ==> seed_symbol_ok(#[trigger] r@[i]),
{
    let mut bytes: Vec<u8> = Vec::new();
    while bytes.len() < 81
        invariant
            bytes@.len() <= 81,
            forall|i: int|
                0 <= i < bytes@.len() ==> bytes@[i] < 128 && seed_symbol_ok(
                    ((#[trigger] bytes@[i] as u32) as char),
                ),
        decreases 81 - bytes@.len(),
    {
        let k = random_index(27);
        bytes.push(seed_alphabet(k));
    }
    ascii_string(bytes)
}

/// Membership in the sample-text alphabet: letters, digits, and a little
/// punctuation.
pub open spec fn data_symbol_ok(c: char) -> bool {
    ||| ('A' <= c && c <= 'Z')
    ||| ('a' <= c && c <= 'z')
    ||| ('0' <= c && c <= '9')
    ||| c == ' '
    ||| c == ';'
    ||| c == ','
    ||| c == '.'
}

/// The byte of the sample-text alphabet at a position: upper-case letters,
/// lower-case letters, digits, then ' ', ';', ',' and '.'.
pub open spec fn data_byte(i: int) -> u8 {
    if i < 26 {
        (65 + i) as u8
    } else if i < 52 {
        (97 + (i - 26)) as u8
    } else if i < 62 {
        (48 + (i - 52)) as u8
    } else if i == 62 {
        32
    } else if i == 63 {
        59
    } else if i == 64 {
        44
    } else {
        46
    }
}

/// Picks the sample-text alphabet byte at the given position.
fn data_alphabet(i: usize) -> (r: u8)
    requires
        i < 66,
    ensures
        r == data_byte(i as int),
        r < 128,
        data_symbol_ok(((r as u32) as char)),
{
    if i < 26 {
        65 + (i as u8)
    } else if i < 52 {
        97 + (i as u8 - 26)
    } else if i < 62 {
        48 + (i as u8 - 52)
    } else if i == 62 {
        32
    } else if i == 63 {
        59
    } else if i == 64 {
        44
    } else {
        46
    }
}

/// A random sample text of the requested length over the sample-text
/// alphabet.
pub fn make_random_data(len: usize) -> (r: String)
    ensures
        r@.len() == len,
        forall|i: int| 0 <= i < r@.len() ==> data_symbol_ok(#[trigger] r@[i]),
{
    let mut bytes: Vec<u8> = Vec::new();
    while bytes.len() < len
        invariant
            bytes@.len() <= len,
            forall|i: int|
                0 <= i < bytes@.len() ==> bytes@[i] < 128 && data_symbol_ok(
                    ((#[trigger] bytes@[i] as u32) as char),
                ),
        decreases len - bytes@.len(),
    {
        let k = random_index(66);
        bytes.push(data_alphabet(k));
    }
    ascii_string(bytes)
}

} // verus!
