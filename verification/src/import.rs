//! The filter in front of block import: a block is let through once the
//! randomness for its parent is at hand, and the block's own hash is
//! announced to the beacon that makes the randomness for its children.

use vstd::prelude::*;
use futures::channel::mpsc::Sender;
use crate::keys::encode_hash;
use crate::local::same_key;
use crate::types::BlockHash;

verus! {

/// What the beacon keys its randomness by: the encoding of a block hash.
pub type Nonce = Vec<u8>;

/// The randomness that the beacon made for one nonce.
pub type RandomBytes = Vec<u8>;

/// How long the filter sleeps between two looks at the randomness, in
/// milliseconds.
pub const POLL_INTERVAL_MS: u64 = 100;

/// Why a block is turned away.
#[derive(Clone, Debug, PartialEq, Eq)]
pub enum Error {
    /// The beacon could not be told of the block, or its randomness did
    /// not come in time.
    TransmitErr,
    /// The client failed, with this message.
    Client(String),
    /// Checking the block's inherents failed, with this message.
    CheckInherents(String),
}

/// What the filter reads of a block.
#[derive(Clone, Copy, Debug, PartialEq, Eq)]
pub struct BlockInfo {
    /// The block's number.
    pub number: u64,
    /// The hash of the block's parent.
    pub parent_hash: BlockHash,
    /// The hash under which the block will be known once imported.
    pub post_hash: BlockHash,
    /// Whether the block comes with its body.
    pub has_body: bool,
}

/// What the caller of the filter does next.
#[derive(Clone, Debug, PartialEq, Eq)]
pub enum ImportAction {
    /// Sleep for so many milliseconds, then ask again with the time
    /// waited so far.
    Sleep(u64),
    /// Hand the block to the importer behind the filter.
    Delegate,
    /// Turn the block away.
    Reject(Error),
}

/// The sending end of a bounded channel of futures. Nothing is known of
/// what is inside.
#[verifier::external_type_specification]
#[verifier::external_body]
#[verifier::reject_recursive_types(T)]
pub struct ExSender<T>(Sender<T>);

/// The filter of one importer.
pub struct RandomnessBeaconBlockImport {
    random_bytes_buf: Vec<Nonce>,
    randomness_nonce_tx: Sender<Nonce>,
    check_inherents_after: u64,
    max_wait_ms: u64,
}

/// Whether the table holds randomness for `nonce`.
pub open spec fn spec_has_entry(table: Seq<(Nonce, RandomBytes)>, nonce: Seq<u8>) -> bool {
    exists|i: int| 0 <= i < table.len() && (#[trigger] table[i]).0@ == nonce
}

/// The table without the entries for `nonce`, the others in their order.
pub open spec fn spec_evicted(table: Seq<(Nonce, RandomBytes)>, nonce: Seq<u8>) -> Seq<
    (Nonce, RandomBytes),
>
    decreases table.len(),
{
    if table.len() == 0 {
        table
    } else if table.last().0@ == nonce {
        spec_evicted(table.drop_last(), nonce)
    } else {
        spec_evicted(table.drop_last(), nonce).push(table.last())
    }
}

/// The nonces among `nonces`.
pub open spec fn spec_nonce_set(nonces: Seq<Nonce>) -> Set<Seq<u8>> {
    Set::new(|nonce: Seq<u8>| exists|i: int| 0 <= i < nonces.len() && (#[trigger] nonces[i])@ == nonce)
}

/// Whether the randomness that `block` needs is at hand: the block is too
/// early to need any, or the table holds an entry for its parent.
pub open spec fn spec_ready(
    check_inherents_after: u64,
    block: BlockInfo,
    table: Seq<(Nonce, RandomBytes)>,
) -> bool {
    block.number < check_inherents_after || spec_has_entry(table, block.parent_hash@)
}

/// Tells whether two nonces are the same.
pub fn same_nonce(a: &Nonce, b: &Nonce) -> (same: bool)
    ensures
        same == (a@ == b@),
{
    same_key(a, b)
}

/// Tells whether the table holds randomness for `nonce`.
pub fn has_entry(table: &Vec<(Nonce, RandomBytes)>, nonce: &Nonce) -> (found: bool)
    ensures
        found == spec_has_entry(table@, nonce@),
{
    let mut i: usize = 0;
    while i < table.len()
        invariant
            i <= table.len(),
            forall|k: int| 0 <= k < i ==> (#[trigger] table[k]).0@ != nonce@,
        decreases table.len() - i,
    {
        if same_nonce(&table[i].0, nonce) {
            return true;
        }
        i = i + 1;
    }
    false
}

/// Takes the entries for `nonce` out of the table; the others keep their
/// order.
pub fn evict(table: &mut Vec<(Nonce, RandomBytes)>, nonce: &Nonce)
    ensures
        final(table)@ == spec_evicted(old(table)@, nonce@),
{
    let ghost whole = table@;
    let mut kept: usize = 0;
    let ghost mut seen: int = 0;
    assert(whole.subrange(0, 0) =~= Seq::empty());
    while kept < table.len()
        invariant
            kept <= table.len(),
            0 <= seen <= whole.len(),
            whole == old(table)@,
            table.len() - kept == whole.len() - seen,
            table@.subrange(0, kept as int) == spec_evicted(whole.subrange(0, seen), nonce@),
            table@.subrange(kept as int, table.len() as int) == whole.subrange(
                seen,
                whole.len() as int,
            ),
        decreases table.len() - kept,
    {
        let ghost before = table@;
        proof {
            assert(before[kept as int] == before.subrange(kept as int, before.len() as int)[0]);
            assert(before[kept as int] == whole[seen]);
            assert(whole.subrange(0, seen + 1).drop_last() =~= whole.subrange(0, seen));
            assert(whole.subrange(0, seen + 1).last() == whole[seen]);
        }
        if same_nonce(&table[kept].0, nonce) {
            table.remove(kept);
            proof {
                assert(table@.subrange(0, kept as int) =~= before.subrange(0, kept as int));
                assert(table@.subrange(kept as int, table.len() as int) =~= whole.subrange(
                    seen + 1,
                    whole.len() as int,
                )) by {
                    assert forall|m: int| kept <= m < table.len() implies #[trigger] table@[m]
                        == whole[seen + 1 + (m - kept)] by {
                        assert(before.subrange(kept as int, before.len() as int)[m - kept + 1]
                            == whole.subrange(seen, whole.len() as int)[m - kept + 1]);
                    }
                }
            }
        } else {
            proof {
                assert(table@.subrange(0, kept + 1) =~= before.subrange(0, kept as int).push(
                    before[kept as int],
                ));
                assert(table@.subrange(kept + 1, table.len() as int) =~= whole.subrange(
                    seen + 1,
                    whole.len() as int,
                )) by {
                    assert forall|m: int| kept + 1 <= m < table.len() implies #[trigger] table@[m]
                        == whole[seen + (m - kept)] by {
                        assert(before.subrange(kept as int, before.len() as int)[m - kept]
                            == whole.subrange(seen, whole.len() as int)[m - kept]);
                    }
                }
            }
            kept = kept + 1;
        }
        proof {
            seen = seen + 1;
        }
    }
    proof {
        assert(table@.subrange(0, kept as int) =~= table@);
        assert(whole.subrange(0, seen) =~= whole);
    }
}

/// Offers `nonce` to the beacon, by `Sender::try_send` of futures, and
/// tells whether the channel took it. Nothing is claimed of the answer:
/// the channel refuses when it is full or its receiver is gone, which
/// depends on what the other end has done. On a bounded channel the call
/// returns without blocking.
#[verifier::external_body]
fn try_send_nonce(tx: &mut Sender<Nonce>, nonce: Nonce) -> (sent: bool) {
    tx.try_send(nonce).is_ok()
}

impl RandomnessBeaconBlockImport {
    /// The nonces that this importer has announced to the beacon and not
    /// cleared since.
    pub closed spec fn announced(&self) -> Set<Seq<u8>> {
        spec_nonce_set(self.random_bytes_buf@)
    }

    /// The number of the first block whose randomness is waited for.
    pub closed spec fn spec_check_inherents_after(&self) -> u64 {
        self.check_inherents_after
    }

    /// The longest that the filter waits for the randomness of one block, in
    /// milliseconds.
    pub closed spec fn spec_max_wait_ms(&self) -> u64 {
        self.max_wait_ms
    }

    /// Makes a filter that has announced nothing. It tells the beacon of
    /// blocks through `randomness_nonce_tx`, waits for randomness from
    /// block `check_inherents_after` on, and for no longer than
    /// `max_wait_ms` milliseconds for one block.
    pub fn new(
        randomness_nonce_tx: Sender<Nonce>,
        check_inherents_after: u64,
        max_wait_ms: u64,
    ) -> (filter: Self)
        ensures
            filter.announced() == Set::<Seq<u8>>::empty(),
            filter.spec_check_inherents_after() == check_inherents_after,
            filter.spec_max_wait_ms() == max_wait_ms,
    {
        let filter = RandomnessBeaconBlockImport {
            random_bytes_buf: Vec::new(),
            randomness_nonce_tx,
            check_inherents_after,
            max_wait_ms,
        };
        assert(filter.announced() =~= Set::<Seq<u8>>::empty());
        filter
    }

    /// Makes a copy of the filter for another importer: it has announced
    /// what this one has, waits as this one does, and tells the beacon
    /// through `randomness_nonce_tx`.
    pub fn clone_with(&self, randomness_nonce_tx: Sender<Nonce>) -> (copy: Self)
        ensures
            copy.announced() == self.announced(),
            copy.spec_check_inherents_after() == self.spec_check_inherents_after(),
            copy.spec_max_wait_ms() == self.spec_max_wait_ms(),
    {
        let mut random_bytes_buf: Vec<Nonce> = Vec::new();
        let mut i: usize = 0;
        while i < self.random_bytes_buf.len()
            invariant
                i <= self.random_bytes_buf.len(),
                random_bytes_buf.len() == i,
                forall|k: int| 0 <= k < i ==> (#[trigger] random_bytes_buf[k])@ == self.random_bytes_buf[k]@,
            decreases self.random_bytes_buf.len() - i,
        {
            let nonce: &Nonce = &self.random_bytes_buf[i];
            let mut bytes: Nonce = Vec::new();
            let mut j: usize = 0;
            while j < nonce.len()
                invariant
                    j <= nonce.len(),
                    bytes@ == nonce@.subrange(0, j as int),
                decreases nonce.len() - j,
            {
                bytes.push(nonce[j]);
                assert(bytes@ =~= nonce@.subrange(0, j + 1));
                j = j + 1;
            }
            assert(nonce@.subrange(0, nonce.len() as int) =~= nonce@);
            random_bytes_buf.push(bytes);
            i = i + 1;
        }
        let copy = RandomnessBeaconBlockImport {
            random_bytes_buf,
            randomness_nonce_tx,
            check_inherents_after: self.check_inherents_after,
            max_wait_ms: self.max_wait_ms,
        };
        proof {
            let mine = self.random_bytes_buf@;
            let theirs = copy.random_bytes_buf@;
            assert forall|n: Seq<u8>| spec_nonce_set(theirs).contains(n) == spec_nonce_set(
                mine,
            ).contains(n) by {
                if spec_nonce_set(theirs).contains(n) {
                    let k = choose|k: int| 0 <= k < theirs.len() && (#[trigger] theirs[k])@ == n;
                    assert(mine[k]@ == n);
                }
                if spec_nonce_set(mine).contains(n) {
                    let k = choose|k: int| 0 <= k < mine.len() && (#[trigger] mine[k])@ == n;
                    assert(theirs[k]@ == n);
                }
            }
            assert(copy.announced() =~= self.announced());
        }
        copy
    }

    /// Tells whether `nonce` has been announced and not cleared since.
    pub fn has_announced(&self, nonce: &Nonce) -> (found: bool)
        ensures
            found == self.announced().contains(nonce@),
    {
        let mut i: usize = 0;
        while i < self.random_bytes_buf.len()
            invariant
                i <= self.random_bytes_buf.len(),
                forall|k: int| 0 <= k < i ==> (#[trigger] self.random_bytes_buf[k])@ != nonce@,
            decreases self.random_bytes_buf.len() - i,
        {
            if same_nonce(&self.random_bytes_buf[i], nonce) {
                return true;
            }
            i = i + 1;
        }
        false
    }

    /// Forgets the parent of a block that is being imported: the nonce of
    /// `parent_hash` is no longer announced, and `random_bytes` holds no
    /// randomness for it.
    pub fn clear_old_random_bytes(
        &mut self,
        parent_hash: &BlockHash,
        random_bytes: &mut Vec<(Nonce, RandomBytes)>,
    )
        ensures
            final(self).announced() == old(self).announced().remove(parent_hash@),
            final(self).spec_check_inherents_after() == old(self).spec_check_inherents_after(),
            final(self).spec_max_wait_ms() == old(self).spec_max_wait_ms(),
            final(random_bytes)@ == spec_evicted(old(random_bytes)@, parent_hash@),
    {
        let parent_nonce: Nonce = encode_hash(parent_hash);
        let ghost before = self.random_bytes_buf@;
        let mut i: usize = 0;
        while i < self.random_bytes_buf.len()
            invariant
                i <= self.random_bytes_buf.len(),
                parent_nonce@ == parent_hash@,
                self.check_inherents_after == old(self).check_inherents_after,
                self.max_wait_ms == old(self).max_wait_ms,
                spec_nonce_set(self.random_bytes_buf@).remove(parent_nonce@) == spec_nonce_set(
                    before,
                ).remove(parent_nonce@),
                forall|k: int| 0 <= k < i ==> (#[trigger] self.random_bytes_buf[k])@ != parent_nonce@,
            decreases self.random_bytes_buf.len() - i,
        {
            if same_nonce(&self.random_bytes_buf[i], &parent_nonce) {
                let ghost full = self.random_bytes_buf@;
                self.random_bytes_buf.remove(i);
                proof {
                    let rest = self.random_bytes_buf@;
                    assert forall|nonce: Seq<u8>| nonce != parent_nonce@ implies (spec_nonce_set(
                        rest,
                    ).contains(nonce) == spec_nonce_set(full).contains(nonce)) by {
                        if spec_nonce_set(rest).contains(nonce) {
                            let k = choose|k: int| 0 <= k < rest.len() && (#[trigger] rest[k])@ == nonce;
                            if k < i {
                                assert(full[k]@ == nonce);
                            } else {
                                assert(full[k + 1]@ == nonce);
                            }
                        }
                        if spec_nonce_set(full).contains(nonce) {
                            let k = choose|k: int| 0 <= k < full.len() && (#[trigger] full[k])@ == nonce;
                            if k < i {
                                assert(rest[k]@ == nonce);
                            } else {
                                assert(rest[k - 1]@ == nonce);
                            }
                        }
                    }
                    assert(spec_nonce_set(rest).remove(parent_nonce@) =~= spec_nonce_set(full).remove(
                        parent_nonce@,
                    ));
                }
            } else {
                i = i + 1;
            }
        }
        proof {
            let rest = self.random_bytes_buf@;
            assert(!spec_nonce_set(rest).contains(parent_nonce@));
            assert(spec_nonce_set(rest) =~= spec_nonce_set(rest).remove(parent_nonce@));
        }
        evict(random_bytes, &parent_nonce);
    }

    /// Looks once whether the randomness that `block` needs is at hand,
    /// `waited_ms` milliseconds after the filter first looked. `Ok(true)`:
    /// it is. `Ok(false)`: not yet, and the time is not up; sleep and look
    /// again. An error: the time is up.
    pub fn check_inherents(
        &self,
        block: &BlockInfo,
        random_bytes: &Vec<(Nonce, RandomBytes)>,
        waited_ms: u64,
    ) -> (ready: Result<bool, Error>)
        ensures
            spec_ready(self.spec_check_inherents_after(), *block, random_bytes@) ==> ready == Ok::<
                bool,
                Error,
            >(true),
            !spec_ready(self.spec_check_inherents_after(), *block, random_bytes@) && waited_ms
                < self.spec_max_wait_ms() ==> ready == Ok::<bool, Error>(false),
            !spec_ready(self.spec_check_inherents_after(), *block, random_bytes@) && waited_ms
                >= self.spec_max_wait_ms() ==> ready == Err::<bool, Error>(Error::TransmitErr),
    {
        if block.number < self.check_inherents_after {
            return Ok(true);
        }
        let parent_nonce: Nonce = encode_hash(&block.parent_hash);
        if has_entry(random_bytes, &parent_nonce) {
            return Ok(true);
        }
        if waited_ms >= self.max_wait_ms {
            return Err(Error::TransmitErr);
        }
        Ok(false)
    }

    /// Gives the nonce to announce for the block with hash `hash`: its
    /// encoding, unless the block is in the chain already, as `in_chain`
    /// tells, or the nonce has been announced.
    pub fn hash_to_nonce(&self, in_chain: bool, hash: &BlockHash) -> (nonce: Option<Nonce>)
        ensures
            nonce.is_none() == (in_chain || self.announced().contains(hash@)),
            nonce matches Some(n) ==> n@ == hash@,
    {
        if in_chain {
            return None;
        }
        let nonce: Nonce = encode_hash(hash);
        if self.has_announced(&nonce) {
            None
        } else {
            Some(nonce)
        }
    }

    /// Notes what became of offering `nonce` to the beacon: a nonce that
    /// was sent counts as announced; one that was not turns the block
    /// away.
    pub fn note_announcement(&mut self, nonce: Nonce, sent: bool) -> (noted: Result<(), Error>)
        ensures
            sent ==> noted.is_ok() && final(self).announced() == old(self).announced().insert(nonce@),
            !sent ==> noted == Err::<(), Error>(Error::TransmitErr) && final(self).announced() == old(
                self,
            ).announced(),
            final(self).spec_check_inherents_after() == old(self).spec_check_inherents_after(),
            final(self).spec_max_wait_ms() == old(self).spec_max_wait_ms(),
    {
        if !sent {
            return Err(Error::TransmitErr);
        }
        let ghost before = self.random_bytes_buf@;
        self.random_bytes_buf.push(nonce);
        proof {
            let after = self.random_bytes_buf@;
            assert forall|n: Seq<u8>| spec_nonce_set(after).contains(n) == spec_nonce_set(
                before,
            ).insert(nonce@).contains(n) by {
                if spec_nonce_set(before).contains(n) {
                    let k = choose|k: int| 0 <= k < before.len() && (#[trigger] before[k])@ == n;
                    assert(after[k]@ == n);
                }
                if n == nonce@ {
                    assert(after[before.len() as int]@ == n);
                }
                if spec_nonce_set(after).contains(n) {
                    let k = choose|k: int| 0 <= k < after.len() && (#[trigger] after[k])@ == n;
                    if k < before.len() {
                        assert(before[k]@ == n);
                    }
                }
            }
            assert(spec_nonce_set(after) =~= spec_nonce_set(before).insert(nonce@));
        }
        Ok(())
    }

    /// Takes one step of importing `block`, and tells the caller what to
    /// do next.
    ///
    /// On the first call for a block, `waited_ms` is empty, and the
    /// block's parent is forgotten first. A block with a body is then held
    /// until its randomness is at hand: while it is not, the answer is to
    /// sleep and to call again with the time waited so far, and once the
    /// time is up the block is turned away. A block that passes is
    /// announced to the beacon, unless it is in the chain, as `in_chain`
    /// tells, or was announced before; if the channel does not take it,
    /// the block is turned away. Else the block goes on to the importer
    /// behind the filter.
    pub fn import_block(
        &mut self,
        block: &BlockInfo,
        random_bytes: &mut Vec<(Nonce, RandomBytes)>,
        waited_ms: Option<u64>,
        in_chain: bool,
    ) -> (action: ImportAction)
        ensures
            final(self).spec_check_inherents_after() == old(self).spec_check_inherents_after(),
            final(self).spec_max_wait_ms() == old(self).spec_max_wait_ms(),
            final(random_bytes)@ == spec_table_after(old(random_bytes)@, *block, waited_ms),
            spec_import_outcome(
                old(self).spec_check_inherents_after(),
                old(self).spec_max_wait_ms(),
                old(self).announced(),
                old(random_bytes)@,
                *block,
                waited_ms,
                in_chain,
                true,
            ) == (final(self).announced(), action) || spec_import_outcome(
                old(self).spec_check_inherents_after(),
                old(self).spec_max_wait_ms(),
                old(self).announced(),
                old(random_bytes)@,
                *block,
                waited_ms,
                in_chain,
                false,
            ) == (final(self).announced(), action),
    {
        let waited: u64 = match waited_ms {
            Some(ms) => ms,
            None => {
                self.clear_old_random_bytes(&block.parent_hash, random_bytes);
                0
            },
        };
        if block.has_body {
            match self.check_inherents(block, random_bytes, waited) {
                Ok(true) => {},
                Ok(false) => {
                    return ImportAction::Sleep(POLL_INTERVAL_MS);
                },
                Err(error) => {
                    return ImportAction::Reject(error);
                },
            }
        }
        match self.hash_to_nonce(in_chain, &block.post_hash) {
            Some(nonce) => {
                let offered: Nonce = encode_hash(&block.post_hash);
                let sent: bool = try_send_nonce(&mut self.randomness_nonce_tx, offered);
                match self.note_announcement(nonce, sent) {
                    Ok(()) => ImportAction::Delegate,
                    Err(error) => ImportAction::Reject(error),
                }
            },
            None => ImportAction::Delegate,
        }
    }
}

/// The table after one step of importing `block`: on the first step the
/// entries for the block's parent are gone.
pub open spec fn spec_table_after(
    table: Seq<(Nonce, RandomBytes)>,
    block: BlockInfo,
    waited_ms: Option<u64>,
) -> Seq<(Nonce, RandomBytes)> {
    if waited_ms.is_none() {
        spec_evicted(table, block.parent_hash@)
    } else {
        table
    }
}

/// What one step of importing `block` leaves announced and tells the
/// caller, where `sent` is whether the channel takes the block's nonce
/// when it is offered.
pub open spec fn spec_import_outcome(
    check_inherents_after: u64,
    max_wait_ms: u64,
    announced: Set<Seq<u8>>,
    table: Seq<(Nonce, RandomBytes)>,
    block: BlockInfo,
    waited_ms: Option<u64>,
    in_chain: bool,
    sent: bool,
) -> (Set<Seq<u8>>, ImportAction) {
    let cleared = if waited_ms.is_none() {
        announced.remove(block.parent_hash@)
    } else {
        announced
    };
    let waited = match waited_ms {
        Some(ms) => ms,
        None => 0,
    };
    let ready = !block.has_body || spec_ready(
        check_inherents_after,
        block,
        spec_table_after(table, block, waited_ms),
    );
    if !ready {
        if waited >= max_wait_ms {
            (cleared, ImportAction::Reject(Error::TransmitErr))
        } else {
            (cleared, ImportAction::Sleep(POLL_INTERVAL_MS))
        }
    } else if in_chain || cleared.contains(block.post_hash@) {
        (cleared, ImportAction::Delegate)
    } else if sent {
        (cleared.insert(block.post_hash@), ImportAction::Delegate)
    } else {
        (cleared, ImportAction::Reject(Error::TransmitErr))
    }
}

} // verus!
