//! Identity of a match: a digest of the attributes that define it.
use vstd::prelude::*;
use parity_scale_codec::Encode;
use crate::pallet::Pallet;
use crate::types::{BlockNumber, Match};

verus! {

/// The `n` lowest bytes of `v`, least significant first.
pub open spec fn le_bytes(v: nat, n: nat) -> Seq<u8>
    decreases n,
{
    if n == 0 {
        Seq::empty()
    } else {
        seq![(v % 256) as u8] + le_bytes(v / 256, (n - 1) as nat)
    }
}

/// SCALE's compact encoding of a length that fits in 32 bits.
pub open spec fn compact_len(n: nat) -> Seq<u8> {
    if n < 0x40 {
        seq![(n * 4) as u8]
    } else if n < 0x4000 {
        le_bytes(n * 4 + 1, 2)
    } else if n < 0x4000_0000 {
        le_bytes(n * 4 + 2, 4)
    } else {
        seq![3u8] + le_bytes(n, 4)
    }
}

/// SCALE's encoding of a byte string: its compact length, then its bytes.
pub open spec fn scale_bytes(b: Seq<u8>) -> Seq<u8> {
    compact_len(b.len()) + b
}

/// SCALE's encoding of the tuple `(team1, team2, start, length)`.
pub open spec fn match_key_encoding(
    team1: Seq<u8>,
    team2: Seq<u8>,
    start: BlockNumber,
    length: BlockNumber,
) -> Seq<u8> {
    scale_bytes(team1) + scale_bytes(team2) + le_bytes(start as nat, 8) + le_bytes(
        length as nat,
        8,
    )
}

/// The 256-bit BLAKE2b digest of `data`.
pub uninterp spec fn blake2_256_of(data: Seq<u8>) -> Seq<u8>;

/// The digest that identifies a match with these teams and times.
pub open spec fn match_hash_of(
    team1: Seq<u8>,
    team2: Seq<u8>,
    start: BlockNumber,
    length: BlockNumber,
) -> Seq<u8> {
    blake2_256_of(match_key_encoding(team1, team2, start, length))
}

/// Relies on parity-scale-codec's `Encode` for a tuple of two byte vectors and
/// two `u64`: the concatenation of the encodings of its fields. The codec
/// panics on a vector longer than `u32::MAX`.
#[verifier::external_body]
fn encode_match_key(team1: &Vec<u8>, team2: &Vec<u8>, start: BlockNumber, length: BlockNumber) -> (r:
    Vec<u8>)
    requires
        team1@.len() <= u32::MAX,
        team2@.len() <= u32::MAX,
    ensures
        r@ == match_key_encoding(team1@, team2@, start, length),
{
    (team1, team2, start, length).encode()
}

/// Relies on sp_io::hashing::blake2_256: the 32-byte BLAKE2b digest of `data`.
#[verifier::external_body]
fn blake2_256(data: &Vec<u8>) -> (r: Vec<u8>)
    ensures
        r@ == blake2_256_of(data@),
        r@.len() == 32,
{
    sp_io::hashing::blake2_256(data).to_vec()
}

impl Pallet {
    /// The digest of a match's teams, start and length; its result and bets take
    /// no part.
    pub fn get_match_hash(betting_match: &Match) -> (r: Vec<u8>)
        requires
            betting_match.team1@.len() <= u32::MAX,
            betting_match.team2@.len() <= u32::MAX,
        ensures
            r@ == match_hash_of(
                betting_match.team1@,
                betting_match.team2@,
                betting_match.start,
                betting_match.length,
            ),
    {
        let encoded = encode_match_key(
            &betting_match.team1,
            &betting_match.team2,
            betting_match.start,
            betting_match.length,
        );
        blake2_256(&encoded)
    }
}

} // verus!
