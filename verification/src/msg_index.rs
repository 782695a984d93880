//! Message indexing: a message's position in an index store is the
//! hex-encoded BLAKE2b-256 digest of its application instance and message
//! id. The digest and the hex encoding come from outside crates behind the
//! trusted wrappers below.

use vstd::prelude::*;

use crate::transaction::TangleAddress;

verus! {

/// What the BLAKE2b-256 digest of a byte sequence is.
pub uninterp spec fn blake2b256_of(data: Seq<u8>) -> Seq<u8>;

/// Relies on iota-crypto's Blake2b256: the digest is 32 bytes and a
/// function of the input bytes alone.
#[verifier::external_body]
fn blake2b256(data: &Vec<u8>) -> (r: Vec<u8>)
    ensures
        r@ == blake2b256_of(data@),
        r@.len() == 32,
{
    <crypto::hashes::blake2b::Blake2b256 as crypto::hashes::Digest>::digest(
        data.as_slice(),
    ).to_vec()
}

/// The lowercase hex digit for a value below 16.
pub open spec fn hex_digit(n: int) -> char {
    seq!['0', '1', '2', '3', '4', '5', '6', '7', '8', '9', 'a', 'b', 'c', 'd', 'e', 'f'][n]
}

/// The lowercase hex encoding of a byte sequence: two digits per byte, high
/// nibble first.
pub open spec fn hex_of(data: Seq<u8>) -> Seq<char>
    decreases data.len(),
{
    if data.len() == 0 {
        Seq::empty()
    } else {
        seq![hex_digit((data[0] as int) / 16), hex_digit((data[0] as int) % 16)] + hex_of(
            data.drop_first(),
        )
    }
}

/// Relies on hex::encode: lowercase, two digits per byte, high nibble
/// first.
#[verifier::external_body]
fn hex_encode(data: &Vec<u8>) -> (r: String)
    ensures
        r@ == hex_of(data@),
{
    hex::encode(data)
}

/// The index under which a message is looked up: the hex-encoded
/// BLAKE2b-256 digest of its application instance followed by its message
/// id.
pub fn get_message_index(link: &TangleAddress) -> (r: String)
    ensures
        r@ == hex_of(blake2b256_of(link@.appinst + link@.msgid)),
{
    let mut arr: Vec<u8> = Vec::new();
    let mut i: usize = 0;
    while i < link.appinst.len()
        invariant
            i <= link@.appinst.len(),
            arr@ == link@.appinst.take(i as int),
        decreases link@.appinst.len() - i,
    {
        arr.push(link.appinst[i]);
        i = i + 1;
        proof {
            assert(arr@ =~= link@.appinst.take(i as int));
        }
    }
    proof {
        assert(arr@ =~= link@.appinst);
    }
    let mut k: usize = 0;
    while k < link.msgid.len()
        invariant
            k <= link@.msgid.len(),
            arr@ == link@.appinst + link@.msgid.take(k as int),
        decreases link@.msgid.len() - k,
    {
        arr.push(link.msgid[k]);
        k = k + 1;
        proof {
            assert(arr@ =~= link@.appinst + link@.msgid.take(k as int));
        }
    }
    proof {
        assert(arr@ =~= link@.appinst + link@.msgid);
    }
    let hs = blake2b256(&arr);
    hex_encode(&hs)
}

} // verus!
