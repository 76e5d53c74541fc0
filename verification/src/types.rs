//! The plain values that the protocol passes around: authority identifiers,
//! block hashes, what the host reports of the chain, events and disputes.

use vstd::prelude::*;

verus! {

/// The position of an authority in the sorted committee.
pub type AuthIndex = u64;

/// The hash of a block.
pub type BlockHash = [u8; 32];

/// The values that the host's cryptography works on. The protocol stores
/// them and hands them on; it never looks inside one.
pub trait Trait {
    /// The public half of an authority's share encryption key.
    type EncryptionPublicKey;

    /// The commitment to one coefficient of a dealer's polynomial.
    type Commitment;

    /// A share as its dealer encrypted it for one recipient.
    type EncryptedShare;

    /// A key that signatures are verified with.
    type VerifyKey;
}

/// The public identifier of an authority: the 32 bytes of its key.
#[derive(Clone, Copy, Debug, Default, PartialEq, Eq, PartialOrd, Ord, Hash)]
pub struct DKGId(pub [u8; 32]);

/// What the host reports of the chain when it makes a call: the number of
/// the current block and the hashes of the blocks that end the four rounds.
#[derive(Clone, Copy, Debug, PartialEq, Eq)]
pub struct Chain {
    pub block_number: u64,
    pub hash_round0: BlockHash,
    pub hash_round1: BlockHash,
    pub hash_round2: BlockHash,
    pub hash_round3: BlockHash,
}

/// What the store tells the outside world.
#[derive(Clone, Copy, Debug, PartialEq, Eq)]
pub enum Event {
    /// Key generation started with this many members and this threshold.
    StartDKG(u64, u64),
    /// The round with this number ended with this count of members.
    RoundEnded(u64, u64),
}

/// One complaint of a recipient about the share that `creator` dealt it,
/// with what the host's cryptography found of the shared key that the
/// recipient presented.
#[derive(Clone, Copy, Debug, PartialEq, Eq)]
pub struct Dispute {
    /// The dealer complained about.
    pub creator: AuthIndex,
    /// Whether the presented key is the one that the encryption keys of the
    /// dealer and of the recipient give.
    pub key_is_correct: bool,
    /// Whether the dealt share decrypts under the presented key to a value
    /// that opens the dealer's commitment for the recipient.
    pub share_is_valid: bool,
}

/// Whether `a` comes before `b` in the order of the dictionary: at the
/// first byte in which they differ, `a` holds the smaller one.
pub open spec fn spec_id_before(a: DKGId, b: DKGId) -> bool {
    exists|k: int|
        0 <= k < 32 && a.0[k] < b.0[k] && forall|j: int| 0 <= j < k ==> a.0[j] == b.0[j]
}

/// Whether no identifier in `ids` comes before the one in front of it.
pub open spec fn spec_sorted(ids: Seq<DKGId>) -> bool {
    forall|i: int| 0 <= i < ids.len() - 1 ==> !spec_id_before(#[trigger] ids[i + 1], ids[i])
}

/// The least index of `authorities` whose identifier is among `keys`.
pub open spec fn spec_first_local(authorities: Seq<DKGId>, keys: Seq<DKGId>) -> Option<int> {
    if exists|i: int| 0 <= i < authorities.len() && keys.contains(#[trigger] authorities[i]) {
        Some(
            choose|i: int|
                0 <= i < authorities.len() && keys.contains(#[trigger] authorities[i])
                    && forall|j: int| 0 <= j < i ==> !keys.contains(#[trigger] authorities[j]),
        )
    } else {
        None
    }
}

impl Chain {
    /// The hash of the block that ends `round`; a round above the last one
    /// is read as the last one.
    pub open spec fn spec_round_hash(self, round: nat) -> BlockHash {
        if round == 0 {
            self.hash_round0
        } else if round == 1 {
            self.hash_round1
        } else if round == 2 {
            self.hash_round2
        } else {
            self.hash_round3
        }
    }

    /// Gives the hash of the block that ends round `round`.
    pub fn round_hash(&self, round: usize) -> (hash: BlockHash)
        ensures
            hash == self.spec_round_hash(round as nat),
    {
        if round == 0 {
            self.hash_round0
        } else if round == 1 {
            self.hash_round1
        } else if round == 2 {
            self.hash_round2
        } else {
            self.hash_round3
        }
    }
}

impl DKGId {
    /// Gives the bytes of the identifier.
    pub fn to_raw_vec(&self) -> (bytes: Vec<u8>)
        ensures
            bytes@ == self.0@,
    {
        let mut bytes: Vec<u8> = Vec::new();
        let mut i: usize = 0;
        while i < 32
            invariant
                i <= 32,
                bytes@ == self.0@.subrange(0, i as int),
            decreases 32 - i,
        {
            bytes.push(self.0[i]);
            assert(bytes@ =~= self.0@.subrange(0, i + 1));
            i = i + 1;
        }
        assert(self.0@.subrange(0, 32) =~= self.0@);
        bytes
    }
}

/// Tells whether two 32-byte values are the same.
pub fn same_bytes(a: &[u8; 32], b: &[u8; 32]) -> (same: bool)
    ensures
        same == (*a == *b),
{
    let mut i: usize = 0;
    while i < 32
        invariant
            i <= 32,
            forall|k: int| 0 <= k < i ==> a[k] == b[k],
        decreases 32 - i,
    {
        if a[i] != b[i] {
            return false;
        }
        i = i + 1;
    }
    assert(*a =~= *b);
    true
}

/// Tells whether two identifiers are the same.
pub fn same_id(a: &DKGId, b: &DKGId) -> (same: bool)
    ensures
        same == (*a == *b),
{
    same_bytes(&a.0, &b.0)
}

/// Tells whether `a` comes before `b` in the order of the dictionary.
pub fn id_before(a: &DKGId, b: &DKGId) -> (before: bool)
    ensures
        before == spec_id_before(*a, *b),
{
    let mut i: usize = 0;
    while i < 32
        invariant
            i <= 32,
            forall|k: int| 0 <= k < i ==> a.0[k] == b.0[k],
        decreases 32 - i,
    {
        if a.0[i] < b.0[i] {
            return true;
        }
        if a.0[i] > b.0[i] {
            return false;
        }
        i = i + 1;
    }
    false
}

/// Of two identifiers at most one comes before the other.
pub proof fn lemma_before_asymmetric(a: DKGId, b: DKGId)
    requires
        spec_id_before(a, b),
    ensures
        !spec_id_before(b, a),
{
}

/// Tells whether `id` is among `keys`.
pub fn contains_id(keys: &Vec<DKGId>, id: &DKGId) -> (found: bool)
    ensures
        found == keys@.contains(*id),
{
    let mut i: usize = 0;
    while i < keys.len()
        invariant
            i <= keys.len(),
            forall|k: int| 0 <= k < i ==> keys[k] != *id,
        decreases keys.len() - i,
    {
        if same_id(&keys[i], id) {
            return true;
        }
        i = i + 1;
    }
    false
}

/// Finds the least index of `authorities` whose identifier is among `keys`.
pub fn first_local(authorities: &Vec<DKGId>, keys: &Vec<DKGId>) -> (found: Option<usize>)
    ensures
        match found {
            Some(i) => spec_first_local(authorities@, keys@) == Some(i as int),
            None => spec_first_local(authorities@, keys@).is_none(),
        },
        found matches Some(i) ==> i < authorities.len() && keys@.contains(authorities[i as int])
            && forall|j: int| 0 <= j < i ==> !keys@.contains(#[trigger] authorities[j]),
{
    let mut i: usize = 0;
    while i < authorities.len()
        invariant
            i <= authorities.len(),
            forall|j: int| 0 <= j < i ==> !keys@.contains(#[trigger] authorities[j]),
        decreases authorities.len() - i,
    {
        if contains_id(keys, &authorities[i]) {
            proof {
                let c = spec_first_local(authorities@, keys@).unwrap();
                assert(keys@.contains(authorities@[i as int]));
                assert(c == i) by {
                    if c < i {
                        assert(!keys@.contains(authorities@[c]));
                    }
                    if c > i {
                        assert(!keys@.contains(authorities@[i as int]));
                    }
                }
            }
            return Some(i);
        }
        i = i + 1;
    }
    None
}

/// Sorts identifiers into the order of the dictionary. Nothing is added or
/// lost.
pub fn sort_ids(ids: &Vec<DKGId>) -> (sorted: Vec<DKGId>)
    ensures
        spec_sorted(sorted@),
        sorted@.to_multiset() == ids@.to_multiset(),
        sorted.len() == ids.len(),
{
    let mut sorted: Vec<DKGId> = Vec::new();
    let mut i: usize = 0;
    assert(ids@.subrange(0, 0) =~= Seq::<DKGId>::empty());
    while i < ids.len()
        invariant
            i <= ids.len(),
            sorted.len() == i,
            spec_sorted(sorted@),
            sorted@.to_multiset() == ids@.subrange(0, i as int).to_multiset(),
        decreases ids.len() - i,
    {
        let id: DKGId = ids[i];
        let mut p: usize = 0;
        while p < sorted.len() && !id_before(&id, &sorted[p])
            invariant
                p <= sorted.len(),
                p > 0 ==> !spec_id_before(id, sorted[p - 1]),
            decreases sorted.len() - p,
        {
            p = p + 1;
        }
        let ghost before = sorted@;
        sorted.insert(p, id);
        proof {
            broadcast use vstd::seq_lib::to_multiset_insert, vstd::seq_lib::to_multiset_build;
            assert(ids@.subrange(0, i + 1) =~= ids@.subrange(0, i as int).push(id));
            if p < before.len() {
                lemma_before_asymmetric(id, before[p as int]);
            }
            assert forall|k: int| 0 <= k < sorted@.len() - 1 implies !spec_id_before(
                #[trigger] sorted@[k + 1],
                sorted@[k],
            ) by {
                if k + 1 < p {
                    assert(sorted@[k + 1] == before[k + 1] && sorted@[k] == before[k]);
                } else if k + 1 == p {
                    assert(sorted@[k + 1] == id && sorted@[k] == before[p - 1]);
                } else if k == p {
                    assert(sorted@[k + 1] == before[p as int] && sorted@[k] == id);
                } else {
                    assert(sorted@[k + 1] == before[(k - 1) + 1] && sorted@[k] == before[k - 1]);
                }
            }
        }
        i = i + 1;
    }
    assert(ids@.subrange(0, ids.len() as int) =~= ids@);
    sorted
}

} // verus!
