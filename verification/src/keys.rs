//! The keys under which a node keeps its own data between rounds.

use vstd::prelude::*;
use crate::types::{BlockHash, Chain};

verus! {

/// What a node keeps between rounds.
#[derive(Clone, Copy, Debug, PartialEq, Eq)]
pub enum Slot {
    /// Which authority the node is.
    LocalKeyInfo,
    /// The secret of the node's share encryption key.
    EncKey,
    /// The coefficients of the node's polynomial.
    SecretPoly,
    /// The shares that the node was dealt and found good.
    SecretShares,
    /// The node's share of the committee's secret.
    ThresholdSecretKey,
}

/// The bytes of `dkw::`, with which every key starts.
pub open spec fn spec_key_mark() -> Seq<u8> {
    seq![0x64u8, 0x6bu8, 0x77u8, 0x3au8, 0x3au8]
}

/// The key for `prefix` in the round `round_number`: the mark, the
/// prefix, and from round 1 on the hash of the block that ended the round
/// before, so that each run of the key generation has slots of its own.
pub open spec fn spec_storage_key(prefix: Seq<u8>, round_number: nat, chain: Chain) -> Seq<u8> {
    if round_number >= 1 {
        spec_key_mark() + prefix + chain.spec_round_hash((round_number - 1) as nat)@
    } else {
        spec_key_mark() + prefix
    }
}

impl Slot {
    /// The name of the slot as bytes.
    pub open spec fn spec_prefix(self) -> Seq<u8> {
        match self {
            // local_key_info
            Slot::LocalKeyInfo => seq![
                0x6cu8, 0x6fu8, 0x63u8, 0x61u8, 0x6cu8, 0x5fu8, 0x6bu8, 0x65u8, 0x79u8, 0x5fu8,
                0x69u8, 0x6eu8, 0x66u8, 0x6fu8,
            ],
            // enc_key
            Slot::EncKey => seq![0x65u8, 0x6eu8, 0x63u8, 0x5fu8, 0x6bu8, 0x65u8, 0x79u8],
            // secret_poly
            Slot::SecretPoly => seq![
                0x73u8, 0x65u8, 0x63u8, 0x72u8, 0x65u8, 0x74u8, 0x5fu8, 0x70u8, 0x6fu8, 0x6cu8,
                0x79u8,
            ],
            // secret_shares
            Slot::SecretShares => seq![
                0x73u8, 0x65u8, 0x63u8, 0x72u8, 0x65u8, 0x74u8, 0x5fu8, 0x73u8, 0x68u8, 0x61u8,
                0x72u8, 0x65u8, 0x73u8,
            ],
            // threshold_secret_key
            Slot::ThresholdSecretKey => seq![
                0x74u8, 0x68u8, 0x72u8, 0x65u8, 0x73u8, 0x68u8, 0x6fu8, 0x6cu8, 0x64u8, 0x5fu8,
                0x73u8, 0x65u8, 0x63u8, 0x72u8, 0x65u8, 0x74u8, 0x5fu8, 0x6bu8, 0x65u8, 0x79u8,
            ],
        }
    }

    /// The round in which the slot is filled.
    pub open spec fn spec_round(self) -> nat {
        match self {
            Slot::LocalKeyInfo => 0,
            Slot::EncKey => 0,
            Slot::SecretPoly => 1,
            Slot::SecretShares => 2,
            Slot::ThresholdSecretKey => 3,
        }
    }

    /// The key of the slot at `chain`.
    pub open spec fn spec_key(self, chain: Chain) -> Seq<u8> {
        spec_storage_key(self.spec_prefix(), self.spec_round(), chain)
    }

    /// Gives the name of the slot as bytes.
    pub fn prefix(&self) -> (name: Vec<u8>)
        ensures
            name@ == self.spec_prefix(),
    {
        let name: Vec<u8> = match self {
            Slot::LocalKeyInfo => vec![
                0x6cu8, 0x6fu8, 0x63u8, 0x61u8, 0x6cu8, 0x5fu8, 0x6bu8, 0x65u8, 0x79u8, 0x5fu8,
                0x69u8, 0x6eu8, 0x66u8, 0x6fu8,
            ],
            Slot::EncKey => vec![0x65u8, 0x6eu8, 0x63u8, 0x5fu8, 0x6bu8, 0x65u8, 0x79u8],
            Slot::SecretPoly => vec![
                0x73u8, 0x65u8, 0x63u8, 0x72u8, 0x65u8, 0x74u8, 0x5fu8, 0x70u8, 0x6fu8, 0x6cu8,
                0x79u8,
            ],
            Slot::SecretShares => vec![
                0x73u8, 0x65u8, 0x63u8, 0x72u8, 0x65u8, 0x74u8, 0x5fu8, 0x73u8, 0x68u8, 0x61u8,
                0x72u8, 0x65u8, 0x73u8,
            ],
            Slot::ThresholdSecretKey => vec![
                0x74u8, 0x68u8, 0x72u8, 0x65u8, 0x73u8, 0x68u8, 0x6fu8, 0x6cu8, 0x64u8, 0x5fu8,
                0x73u8, 0x65u8, 0x63u8, 0x72u8, 0x65u8, 0x74u8, 0x5fu8, 0x6bu8, 0x65u8, 0x79u8,
            ],
        };
        assert(name@ =~= self.spec_prefix());
        name
    }

    /// Gives the round in which the slot is filled.
    pub fn round(&self) -> (round: usize)
        ensures
            round == self.spec_round(),
    {
        match self {
            Slot::LocalKeyInfo => 0,
            Slot::EncKey => 0,
            Slot::SecretPoly => 1,
            Slot::SecretShares => 2,
            Slot::ThresholdSecretKey => 3,
        }
    }

    /// Builds the key of the slot at `chain`.
    pub fn key(&self, chain: &Chain) -> (key: Vec<u8>)
        ensures
            key@ == self.spec_key(*chain),
    {
        let name = self.prefix();
        build_storage_key(name.as_slice(), self.round(), chain)
    }
}

/// Encodes a block hash, by `Encode::encode` of parity-scale-codec on an
/// array of 32 bytes. The contract claims what that crate's encoding of a
/// fixed-size byte array is: the bytes themselves in their order, with
/// nothing in front and nothing behind.
#[verifier::external_body]
pub(crate) fn encode_hash(hash: &BlockHash) -> (encoded: Vec<u8>)
    ensures
        encoded@ == hash@,
{
    parity_scale_codec::Encode::encode(hash)
}

/// Builds the key for `prefix` in the round `round_number`.
pub fn build_storage_key(prefix: &[u8], round_number: usize, chain: &Chain) -> (full_key: Vec<u8>)
    ensures
        full_key@ == spec_storage_key(prefix@, round_number as nat, *chain),
{
    let mut full_key: Vec<u8> = vec![0x64u8, 0x6bu8, 0x77u8, 0x3au8, 0x3au8];
    assert(full_key@ =~= spec_key_mark());
    let mut i: usize = 0;
    while i < prefix.len()
        invariant
            i <= prefix.len(),
            full_key@ == spec_key_mark() + prefix@.subrange(0, i as int),
        decreases prefix.len() - i,
    {
        full_key.push(prefix[i]);
        assert(full_key@ =~= spec_key_mark() + prefix@.subrange(0, i + 1));
        i = i + 1;
    }
    assert(prefix@.subrange(0, prefix.len() as int) =~= prefix@);
    if round_number >= 1 {
        let hash: BlockHash = chain.round_hash(round_number - 1);
        let mut hashb: Vec<u8> = encode_hash(&hash);
        let ghost before = full_key@;
        full_key.append(&mut hashb);
        assert(full_key@ =~= before + hash@);
    }
    full_key
}

} // verus!
