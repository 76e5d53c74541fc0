//! The store that a node keeps for itself between rounds: values under
//! keys, the last value written under a key being the one that is read.

use vstd::prelude::*;
use crate::scalar::{spec_bytes_value, spec_raw_value, RawSecret};
use crate::types::{AuthIndex, DKGId};

verus! {

/// A value that a node keeps.
#[derive(Clone, Debug, PartialEq, Eq)]
pub enum LocalValue {
    /// Which authority the node is, if any: its position and its
    /// identifier.
    KeyInfo(Option<(AuthIndex, DKGId)>),
    /// The secret of the node's share encryption key.
    EncKey(RawSecret),
    /// The coefficients of the node's polynomial, the constant one first.
    SecretPoly(Vec<RawSecret>),
    /// For each dealer, the share it dealt the node, where the node found
    /// it good: the 32 bytes of the share's number.
    SecretShares(Vec<Option<[u8; 32]>>),
    /// The 32 bytes of the node's share of the committee's secret.
    ThresholdSecretKey([u8; 32]),
}

/// A kept value as mathematics: limbs and bytes are the numbers they stand
/// for.
pub enum SlotValue {
    KeyInfo(Option<(AuthIndex, DKGId)>),
    EncKey(nat),
    SecretPoly(Seq<nat>),
    SecretShares(Seq<Option<nat>>),
    ThresholdSecretKey(nat),
}

/// The numbers of a sequence of raw secrets.
pub open spec fn spec_raw_values(raws: Seq<RawSecret>) -> Seq<nat> {
    raws.map_values(|raw: RawSecret| spec_raw_value(raw))
}

/// The numbers of a sequence of shares, each given by its 32 bytes.
pub open spec fn spec_share_values(shares: Seq<Option<[u8; 32]>>) -> Seq<Option<nat>> {
    shares.map_values(
        |share: Option<[u8; 32]>|
            match share {
                Some(bytes) => Some(spec_bytes_value(bytes@)),
                None => None,
            },
    )
}

impl View for LocalValue {
    type V = SlotValue;

    open spec fn view(&self) -> SlotValue {
        match self {
            LocalValue::KeyInfo(info) => SlotValue::KeyInfo(*info),
            LocalValue::EncKey(raw) => SlotValue::EncKey(spec_raw_value(*raw)),
            LocalValue::SecretPoly(coeffs) => SlotValue::SecretPoly(spec_raw_values(coeffs@)),
            LocalValue::SecretShares(shares) => SlotValue::SecretShares(spec_share_values(shares@)),
            LocalValue::ThresholdSecretKey(bytes) => SlotValue::ThresholdSecretKey(
                spec_bytes_value(bytes@),
            ),
        }
    }
}

/// What a node keeps: values under keys.
pub struct LocalStore {
    entries: Vec<(Vec<u8>, LocalValue)>,
}

/// The values under their keys after `entries` were written in order.
pub open spec fn spec_written(entries: Seq<(Vec<u8>, LocalValue)>) -> Map<Seq<u8>, SlotValue>
    decreases entries.len(),
{
    if entries.len() == 0 {
        Map::empty()
    } else {
        spec_written(entries.drop_last()).insert(entries.last().0@, entries.last().1@)
    }
}

/// What is read under `key` does not depend on what was written under
/// other keys after it.
proof fn lemma_read_back(entries: Seq<(Vec<u8>, LocalValue)>, key: Seq<u8>, upto: int)
    requires
        0 <= upto <= entries.len(),
        forall|j: int| upto <= j < entries.len() ==> (#[trigger] entries[j]).0@ != key,
    ensures
        spec_written(entries).contains_key(key) == spec_written(
            entries.subrange(0, upto),
        ).contains_key(key),
        spec_written(entries).contains_key(key) ==> spec_written(entries)[key] == spec_written(
            entries.subrange(0, upto),
        )[key],
    decreases entries.len() - upto,
{
    if upto == entries.len() {
        assert(entries.subrange(0, upto) =~= entries);
    } else {
        let front = entries.drop_last();
        assert(front.subrange(0, upto) =~= entries.subrange(0, upto));
        lemma_read_back(front, key, upto);
    }
}

/// Writing over the value that is read under `key` is writing under `key`.
proof fn lemma_write_over(
    entries: Seq<(Vec<u8>, LocalValue)>,
    at: int,
    entry: (Vec<u8>, LocalValue),
)
    requires
        0 <= at < entries.len(),
        entries[at].0@ == entry.0@,
        forall|j: int| at < j < entries.len() ==> (#[trigger] entries[j]).0@ != entry.0@,
    ensures
        spec_written(entries.update(at, entry)) == spec_written(entries).insert(
            entry.0@,
            entry.1@,
        ),
    decreases entries.len(),
{
    let after = entries.update(at, entry);
    if at == entries.len() - 1 {
        assert(after.drop_last() =~= entries.drop_last());
        assert(spec_written(after) =~= spec_written(entries).insert(entry.0@, entry.1@));
    } else {
        let front = entries.drop_last();
        assert(after.drop_last() =~= front.update(at, entry));
        lemma_write_over(front, at, entry);
        assert(entries.last().0@ != entry.0@);
        assert(spec_written(after) =~= spec_written(entries).insert(entry.0@, entry.1@));
    }
}

/// Tells whether two keys are the same.
pub fn same_key(a: &Vec<u8>, b: &Vec<u8>) -> (same: bool)
    ensures
        same == (a@ == b@),
{
    if a.len() != b.len() {
        return false;
    }
    let mut i: usize = 0;
    while i < a.len()
        invariant
            i <= a.len(),
            a.len() == b.len(),
            forall|k: int| 0 <= k < i ==> a[k] == b[k],
        decreases a.len() - i,
    {
        if a[i] != b[i] {
            return false;
        }
        i = i + 1;
    }
    assert(a@ =~= b@);
    true
}

impl View for LocalStore {
    type V = Map<Seq<u8>, SlotValue>;

    closed spec fn view(&self) -> Map<Seq<u8>, SlotValue> {
        spec_written(self.entries@)
    }
}

impl LocalStore {
    /// Makes a store that keeps nothing.
    pub fn new() -> (store: LocalStore)
        ensures
            store@ == Map::<Seq<u8>, SlotValue>::empty(),
    {
        LocalStore { entries: Vec::new() }
    }

    /// Reads the value under `key`, if there is one.
    pub fn get(&self, key: &Vec<u8>) -> (value: Option<&LocalValue>)
        ensures
            value.is_some() == self@.contains_key(key@),
            value matches Some(found) ==> found@ == self@[key@],
    {
        let mut i: usize = self.entries.len();
        while i > 0
            invariant
                i <= self.entries.len(),
                forall|j: int| i <= j < self.entries.len() ==> (#[trigger] self.entries[j]).0@ != key@,
            decreases i,
        {
            i = i - 1;
            if same_key(&self.entries[i].0, key) {
                proof {
                    lemma_read_back(self.entries@, key@, i + 1);
                    let front = self.entries@.subrange(0, i + 1);
                    assert(front.last() == self.entries@[i as int]);
                }
                return Some(&self.entries[i].1);
            }
        }
        proof {
            lemma_read_back(self.entries@, key@, 0);
            assert(self.entries@.subrange(0, 0) =~= Seq::empty());
        }
        None
    }

    /// Writes `value` under `key`, in place of what was there.
    pub fn set(&mut self, key: Vec<u8>, value: LocalValue)
        ensures
            final(self)@ == old(self)@.insert(key@, value@),
    {
        let mut i: usize = self.entries.len();
        while i > 0
            invariant
                i <= self.entries.len(),
                self.entries == old(self).entries,
                forall|j: int| i <= j < self.entries.len() ==> (#[trigger] self.entries[j]).0@ != key@,
            decreases i,
        {
            i = i - 1;
            if same_key(&self.entries[i].0, &key) {
                proof {
                    lemma_write_over(self.entries@, i as int, (key, value));
                }
                self.entries[i] = (key, value);
                return ;
            }
        }
        self.entries.push((key, value));
        assert(self.entries@.drop_last() =~= old(self).entries@);
    }
}

} // verus!
