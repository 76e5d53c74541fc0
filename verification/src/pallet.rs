//! The on-chain side of the key generation: the store, genesis, the three
//! submission handlers, the finalizer and the read queries.

use vstd::prelude::*;
use crate::scalar::{member_point, spec_member_point, Scalar};
use crate::schedule::{in_round, round_end, spec_round_end};
use crate::store::{spec_count, Store};
use crate::types::{
    first_local, id_before, same_bytes, same_id, sort_ids, spec_first_local, spec_id_before,
    spec_sorted, AuthIndex, BlockHash, Chain,
    DKGId, Dispute, Event, Trait,
};

verus! {

/// The store of one run of the key generation, with the operations that
/// the chain performs on it.
pub struct Module<T: Trait> {
    parts: Parts<T>,
}

/// The store taken apart, as a host keeps it between blocks: one plain
/// value for each map and each single value of the store, the maps as
/// vectors indexed by the position of an authority.
pub struct Parts<T: Trait> {
    pub dkg_ready: u64,
    pub authorities: Vec<DKGId>,
    pub threshold: u64,
    pub encryption_pks: Vec<Option<T::EncryptionPublicKey>>,
    pub committed_polynomials: Vec<Option<Vec<T::Commitment>>>,
    pub encrypted_shares: Vec<Vec<Option<T::EncryptedShare>>>,
    pub is_correct_dealer: Vec<bool>,
    pub master_verification_key: Option<T::VerifyKey>,
    pub verification_keys: Option<Vec<T::VerifyKey>>,
}

impl<T: Trait> View for Parts<T> {
    type V = Store<T>;

    open spec fn view(&self) -> Store<T> {
        Store {
            dkg_ready: self.dkg_ready as nat,
            authorities: self.authorities@,
            threshold: self.threshold as nat,
            encryption_pks: self.encryption_pks@,
            committed_polynomials: Seq::new(
                self.committed_polynomials@.len(),
                |i: int|
                    match self.committed_polynomials@[i] {
                        Some(poly) => Some(poly@),
                        None => None,
                    },
            ),
            encrypted_shares: Seq::new(
                self.encrypted_shares@.len(),
                |i: int| self.encrypted_shares@[i]@,
            ),
            is_correct_dealer: self.is_correct_dealer@,
            master_verification_key: self.master_verification_key,
            verification_keys: match self.verification_keys {
                Some(keys) => Some(keys@),
                None => None,
            },
        }
    }
}

impl<T: Trait> View for Module<T> {
    type V = Store<T>;

    closed spec fn view(&self) -> Store<T> {
        self.parts@
    }
}

/// The derived keys as values: the key of the committee and the sequence of
/// the members' keys.
pub open spec fn spec_key_values<T: Trait>(
    keys: Option<(T::VerifyKey, Vec<T::VerifyKey>)>,
) -> Option<(T::VerifyKey, Seq<T::VerifyKey>)> {
    match keys {
        Some(pair) => Some((pair.0, pair.1@)),
        None => None,
    }
}

/// Every dealer listed as qualified among the first `n` authorities is
/// qualified and stands below `n`.
pub proof fn lemma_qualified_members<T: Trait>(store: Store<T>, n: nat)
    requires
        store.inv(),
        n <= store.n_members(),
    ensures
        forall|k: int|
            0 <= k < store.qualified_below(n).len() ==> store.is_qualified(
                #[trigger] store.qualified_below(n)[k] as int,
            ) && store.qualified_below(n)[k] < n,
        store.qualified_below(n).len() <= n,
    decreases n,
{
    if n > 0 {
        lemma_qualified_members(store, (n - 1) as nat);
    }
}

impl<T: Trait> Module<T> {
    /// Whether the store is in order.
    pub open spec fn wf(&self) -> bool {
        self@.inv()
    }

    /// Makes the store as it is before genesis, for a key that must be
    /// ready by block `dkg_ready`.
    pub fn new(dkg_ready: u64) -> (module: Self)
        ensures
            module.wf(),
            module@ == Store::<T>::empty(dkg_ready as nat),
    {
        let module = Module {
            parts: Parts {
                dkg_ready,
                authorities: Vec::new(),
                threshold: 0,
                encryption_pks: Vec::new(),
                committed_polynomials: Vec::new(),
                encrypted_shares: Vec::new(),
                is_correct_dealer: Vec::new(),
                master_verification_key: None,
                verification_keys: None,
            },
        };
        assert(module@.committed_polynomials =~= Seq::empty());
        assert(module@.encrypted_shares =~= Seq::empty());
        module
    }

    /// Sets the committee: `authorities` sorted into the order of the
    /// dictionary, each at the index that the order gives it. An empty
    /// list sets nothing. A committee is set once: the call is not for a
    /// store that has one.
    pub fn init_store(&mut self, authorities: &Vec<DKGId>)
        requires
            old(self).wf(),
            authorities.len() > 0 ==> old(self)@.n_members() == 0,
        ensures
            final(self).wf(),
            authorities.len() == 0 ==> final(self)@ == old(self)@,
            authorities.len() > 0 ==> final(self)@ == old(self)@.with_committee(
                final(self)@.authorities,
            ) && final(self)@.authorities.to_multiset() == authorities@.to_multiset(),
    {
        if authorities.len() == 0 {
            return ;
        }
        let n: usize = authorities.len();
        let sorted = sort_ids(authorities);
        let mut encryption_pks: Vec<Option<T::EncryptionPublicKey>> = Vec::new();
        let mut committed_polynomials: Vec<Option<Vec<T::Commitment>>> = Vec::new();
        let mut encrypted_shares: Vec<Vec<Option<T::EncryptedShare>>> = Vec::new();
        let mut is_correct_dealer: Vec<bool> = Vec::new();
        let mut i: usize = 0;
        while i < n
            invariant
                i <= n,
                encryption_pks.len() == i,
                committed_polynomials.len() == i,
                encrypted_shares.len() == i,
                is_correct_dealer.len() == i,
                forall|k: int| 0 <= k < i ==> (#[trigger] encryption_pks[k]).is_none(),
                forall|k: int| 0 <= k < i ==> (#[trigger] committed_polynomials[k]).is_none(),
                forall|k: int| 0 <= k < i ==> !(#[trigger] is_correct_dealer[k]),
                forall|k: int|
                    0 <= k < i ==> (#[trigger] encrypted_shares[k]).len() == n && forall|j: int|
                        0 <= j < n ==> (#[trigger] encrypted_shares[k][j]).is_none(),
            decreases n - i,
        {
            let mut row: Vec<Option<T::EncryptedShare>> = Vec::new();
            let mut j: usize = 0;
            while j < n
                invariant
                    j <= n,
                    row.len() == j,
                    forall|k: int| 0 <= k < j ==> (#[trigger] row[k]).is_none(),
                decreases n - j,
            {
                row.push(None);
                j = j + 1;
            }
            encryption_pks.push(None);
            committed_polynomials.push(None);
            encrypted_shares.push(row);
            is_correct_dealer.push(false);
            i = i + 1;
        }
        self.parts.authorities = sorted;
        self.parts.encryption_pks = encryption_pks;
        self.parts.committed_polynomials = committed_polynomials;
        self.parts.encrypted_shares = encrypted_shares;
        self.parts.is_correct_dealer = is_correct_dealer;
        proof {
            let after = old(self)@.with_committee(self@.authorities);
            assert(self@.encryption_pks =~= after.encryption_pks);
            assert(self@.committed_polynomials =~= after.committed_polynomials);
            assert(self@.is_correct_dealer =~= after.is_correct_dealer);
            assert forall|k: int| 0 <= k < n implies #[trigger] self@.encrypted_shares[k]
                =~= after.encrypted_shares[k] by {
                assert(self.parts.encrypted_shares@[k].len() == n);
            }
            assert(self@.encrypted_shares =~= after.encrypted_shares);
            assert(self@ =~= after);
        }
    }

    /// Sets the threshold and starts the key generation, which is told by
    /// the event. A threshold is set once, and it is above zero and not
    /// above the number of members: the call is for nothing else.
    pub fn set_threshold(&mut self, threshold: u64) -> (started: Event)
        requires
            old(self).wf(),
            0 < threshold <= old(self)@.n_members(),
            !old(self)@.started(),
        ensures
            final(self).wf(),
            final(self)@ == (Store { threshold: threshold as nat, ..old(self)@ }),
            started == Event::StartDKG(old(self)@.n_members() as u64, threshold),
    {
        let n: u64 = self.parts.authorities.len() as u64;
        self.parts.threshold = threshold;
        assert(self@ =~= (Store { threshold: threshold as nat, ..old(self)@ }));
        Event::StartDKG(n, threshold)
    }

    /// The block by which the outside world expects the key of the
    /// committee.
    pub fn master_key_ready(&self) -> (block: u64)
        ensures
            block == self@.dkg_ready,
    {
        self.parts.dkg_ready
    }

    /// The threshold; zero until it is set.
    pub fn threshold(&self) -> (threshold: u64)
        ensures
            threshold == self@.threshold,
    {
        self.parts.threshold
    }

    /// The size of the committee.
    pub fn n_members(&self) -> (n: usize)
        ensures
            n == self@.n_members(),
    {
        self.parts.authorities.len()
    }

    /// The deadline of round `round_number`.
    pub fn round_end(&self, round_number: usize) -> (deadline: u64)
        ensures
            deadline == self@.round_end(round_number as nat),
    {
        round_end(self.parts.dkg_ready, round_number)
    }

    /// Tells whether `who` is the authority at position `ix`.
    pub fn check_authority(&self, ix: AuthIndex, who: &DKGId) -> (known: bool)
        ensures
            known == self@.is_authority(ix, *who),
    {
        if ix >= self.parts.authorities.len() as u64 {
            return false;
        }
        same_id(&self.parts.authorities[ix as usize], who)
    }

    /// Takes the encryption key `pk` of authority `ix`, signed by `who`.
    /// It is stored when the block lies in round 0 and `who` is that
    /// authority; a key stored before is replaced. Otherwise nothing
    /// changes.
    pub fn post_encryption_key(
        &mut self,
        chain: &Chain,
        who: &DKGId,
        ix: AuthIndex,
        pk: T::EncryptionPublicKey,
    )
        requires
            old(self).wf(),
        ensures
            final(self).wf(),
            final(self)@ == old(self)@.post_encryption_key(*chain, *who, ix, pk),
    {
        if self.parts.threshold == 0 {
            return ;
        }
        if !in_round(self.parts.dkg_ready, 0, chain.block_number) {
            return ;
        }
        if !self.check_authority(ix, who) {
            return ;
        }
        self.parts.encryption_pks[ix as usize] = Some(pk);
        proof {
            let after = old(self)@.post_encryption_key(*chain, *who, ix, pk);
            assert(self@.committed_polynomials =~= after.committed_polynomials);
            assert(self@.encrypted_shares =~= after.encrypted_shares);
            assert(self@.encryption_pks =~= after.encryption_pks);
            assert(self@ =~= after);
        }
    }

    /// Takes the shares and the commitments of dealer `ix`, signed by
    /// `who` and bound to the block with hash `hash_round0`.
    ///
    /// They are stored when the block lies in round 1, `who` is that
    /// authority, there is one place for each member among the shares and
    /// one commitment for each coefficient, the dealer's encryption key is
    /// stored, and `hash_round0` is the hash of the block that ended round
    /// 0. Then each share that is given is stored, the commitments are
    /// stored, and the dealer counts as correct. Otherwise nothing changes.
    pub fn post_secret_shares(
        &mut self,
        chain: &Chain,
        who: &DKGId,
        ix: AuthIndex,
        shares: Vec<Option<T::EncryptedShare>>,
        comm_poly: Vec<T::Commitment>,
        hash_round0: &BlockHash,
    )
        requires
            old(self).wf(),
        ensures
            final(self).wf(),
            final(self)@ == old(self)@.post_secret_shares(
                *chain,
                *who,
                ix,
                shares@,
                comm_poly@,
                *hash_round0,
            ),
    {
        if self.parts.threshold == 0 {
            return ;
        }
        if !in_round(self.parts.dkg_ready, 1, chain.block_number) {
            return ;
        }
        if !self.check_authority(ix, who) {
            return ;
        }
        let n: usize = self.parts.authorities.len();
        if shares.len() != n || comm_poly.len() as u64 != self.parts.threshold {
            return ;
        }
        let dealer: usize = ix as usize;
        if self.parts.encryption_pks[dealer].is_none() {
            return ;
        }
        if !same_bytes(hash_round0, &chain.hash_round0) {
            return ;
        }
        let ghost given = shares@;
        let ghost before = self.parts.encrypted_shares@[dealer as int]@;
        let mut shares = shares;
        let mut j: usize = n;
        while j > 0
            invariant
                j <= n,
                dealer < n,
                shares@ == given.subrange(0, j as int),
                given.len() == n,
                self.parts.encrypted_shares@.len() == n,
                self.parts.dkg_ready == old(self).parts.dkg_ready,
                self.parts.authorities == old(self).parts.authorities,
                self.parts.threshold == old(self).parts.threshold,
                self.parts.encryption_pks == old(self).parts.encryption_pks,
                self.parts.committed_polynomials == old(self).parts.committed_polynomials,
                self.parts.is_correct_dealer == old(self).parts.is_correct_dealer,
                self.parts.master_verification_key == old(self).parts.master_verification_key,
                self.parts.verification_keys == old(self).parts.verification_keys,
                forall|k: int|
                    0 <= k < n && k != dealer ==> self.parts.encrypted_shares@[k] == old(
                        self,
                    ).parts.encrypted_shares@[k],
                self.parts.encrypted_shares@[dealer as int]@.len() == n,
                forall|k: int|
                    0 <= k < j ==> self.parts.encrypted_shares@[dealer as int]@[k] == before[k],
                forall|k: int|
                    j <= k < n ==> self.parts.encrypted_shares@[dealer as int]@[k] == (if given[k].is_some() {
                        given[k]
                    } else {
                        before[k]
                    }),
            decreases j,
        {
            j = j - 1;
            let share = shares.pop();
            match share {
                Some(Some(s)) => {
                    self.parts.encrypted_shares[dealer][j] = Some(s);
                },
                _ => {},
            }
        }
        self.parts.committed_polynomials[dealer] = Some(comm_poly);
        self.parts.is_correct_dealer[dealer] = true;
        proof {
            let after = old(self)@.post_secret_shares(
                *chain,
                *who,
                ix,
                given,
                comm_poly@,
                *hash_round0,
            );
            assert(self@.encrypted_shares[dealer as int] =~= after.encrypted_shares[dealer as int]);
            assert(self@.encrypted_shares =~= after.encrypted_shares);
            assert(self@.committed_polynomials =~= after.committed_polynomials);
            assert(self@.is_correct_dealer =~= after.is_correct_dealer);
            assert(self@ =~= after);
        }
    }

    /// Takes the complaints of recipient `ix`, signed by `who` and bound to
    /// the block with hash `hash_round1`.
    ///
    /// They are looked at when the block lies in round 2, `who` is that
    /// authority and `hash_round1` is the hash of the block that ended
    /// round 1. Then each dealer that a complaint proves wrong no longer
    /// counts as correct; a complaint that proves nothing is passed over,
    /// and the ones after it are still looked at. Otherwise nothing
    /// changes.
    pub fn post_disputes(
        &mut self,
        chain: &Chain,
        who: &DKGId,
        ix: AuthIndex,
        disputes: &Vec<Dispute>,
        hash_round1: &BlockHash,
    )
        requires
            old(self).wf(),
        ensures
            final(self).wf(),
            final(self)@ == old(self)@.post_disputes(*chain, *who, ix, disputes@, *hash_round1),
    {
        if self.parts.threshold == 0 {
            return ;
        }
        if !in_round(self.parts.dkg_ready, 2, chain.block_number) {
            return ;
        }
        if !self.check_authority(ix, who) {
            return ;
        }
        if !same_bytes(hash_round1, &chain.hash_round1) {
            return ;
        }
        let n: usize = self.parts.authorities.len();
        let issuer: usize = ix as usize;
        let ghost start = old(self)@;
        let mut k: usize = 0;
        while k < disputes.len()
            invariant
                k <= disputes.len(),
                issuer == ix,
                issuer < n,
                n == start.n_members(),
                start == old(self)@,
                start.inv(),
                self.parts.dkg_ready == old(self).parts.dkg_ready,
                self.parts.authorities == old(self).parts.authorities,
                self.parts.threshold == old(self).parts.threshold,
                self.parts.encryption_pks == old(self).parts.encryption_pks,
                self.parts.committed_polynomials == old(self).parts.committed_polynomials,
                self.parts.encrypted_shares == old(self).parts.encrypted_shares,
                self.parts.master_verification_key == old(self).parts.master_verification_key,
                self.parts.verification_keys == old(self).parts.verification_keys,
                self.parts.is_correct_dealer@.len() == n,
                forall|c: int|
                    0 <= c < n ==> #[trigger] self.parts.is_correct_dealer@[c] == (
                    start.is_correct_dealer[c] && !start.disputed(
                        ix,
                        disputes@.subrange(0, k as int),
                        c,
                    )),
            decreases disputes.len() - k,
        {
            let dispute: Dispute = disputes[k];
            let ghost seen = disputes@.subrange(0, k as int);
            let ghost more = disputes@.subrange(0, k + 1);
            let ghost current = self.parts.is_correct_dealer@;
            let ghost mut hit = false;
            if dispute.creator < n as u64 {
                let creator: usize = dispute.creator as usize;
                proof {
                    assert(start.encrypted_shares[creator as int] == self.parts.encrypted_shares@[creator as int]@);
                    assert(start.encrypted_shares[creator as int].len() == n);
                    assert(start.committed_polynomials[creator as int].is_none()
                        == self.parts.committed_polynomials@[creator as int].is_none());
                    assert(start.encryption_pks == self.parts.encryption_pks@);
                    hit = start.refutes(ix, dispute, creator as int);
                }
                if self.parts.is_correct_dealer[creator] && dispute.key_is_correct
                    && self.parts.encryption_pks[creator].is_some() && self.parts.encryption_pks[issuer].is_some() {
                    if self.parts.encrypted_shares[creator][issuer].is_none()
                        || self.parts.committed_polynomials[creator].is_none() || !dispute.share_is_valid {
                        self.parts.is_correct_dealer[creator] = false;
                        assert(hit);
                    } else {
                        assert(!hit);
                    }
                } else {
                    assert(!hit || !current[creator as int]);
                }
                assert(self.parts.is_correct_dealer@[creator as int] == (current[creator as int] && !hit));
            }
            proof {
                assert(more[k as int] == dispute);
                assert forall|c: int| 0 <= c < n implies (start.disputed(ix, more, c) <==> (
                start.disputed(ix, seen, c) || start.refutes(ix, dispute, c))) by {
                    if start.disputed(ix, seen, c) {
                        let w = choose|w: int|
                            0 <= w < seen.len() && start.refutes(ix, #[trigger] seen[w], c);
                        assert(more[w] == seen[w]);
                        assert(start.disputed(ix, more, c));
                    }
                    if start.refutes(ix, dispute, c) {
                        assert(start.refutes(ix, more[k as int], c));
                        assert(start.disputed(ix, more, c));
                    }
                    if start.disputed(ix, more, c) {
                        let w = choose|w: int|
                            0 <= w < more.len() && start.refutes(ix, #[trigger] more[w], c);
                        if w < k {
                            assert(seen[w] == more[w]);
                            assert(start.disputed(ix, seen, c));
                        }
                    }
                }
                assert forall|c: int| 0 <= c < n implies #[trigger] self.parts.is_correct_dealer@[c] == (
                start.is_correct_dealer[c] && !start.disputed(ix, more, c)) by {
                    assert(current[c] == (start.is_correct_dealer[c] && !start.disputed(ix, seen, c)));
                    if c == dispute.creator {
                        assert(self.parts.is_correct_dealer@[c] == (current[c] && !hit));
                    } else {
                        assert(self.parts.is_correct_dealer@[c] == current[c]);
                        assert(!start.refutes(ix, dispute, c));
                    }
                }
            }
            k = k + 1;
        }
        proof {
            assert(disputes@.subrange(0, disputes.len() as int) =~= disputes@);
            let after = old(self)@.post_disputes(*chain, *who, ix, disputes@, *hash_round1);
            assert(self@.is_correct_dealer =~= after.is_correct_dealer);
            assert(self@.committed_polynomials =~= after.committed_polynomials);
            assert(self@.encrypted_shares =~= after.encrypted_shares);
            assert(self@ =~= after);
        }
    }

    /// Counts the authorities that count as correct dealers.
    pub fn count_successful_nodes(&self) -> (count: u64)
        requires
            self.wf(),
        ensures
            count == self@.count_successful(),
    {
        let mut count: u64 = 0;
        let mut i: usize = 0;
        assert(self.parts.is_correct_dealer@.subrange(0, 0) =~= Seq::empty());
        while i < self.parts.is_correct_dealer.len()
            invariant
                i <= self.parts.is_correct_dealer.len(),
                count <= i,
                count == spec_count(self.parts.is_correct_dealer@.subrange(0, i as int)),
            decreases self.parts.is_correct_dealer.len() - i,
        {
            proof {
                let next = self.parts.is_correct_dealer@.subrange(0, i + 1);
                assert(next.drop_last() =~= self.parts.is_correct_dealer@.subrange(0, i as int));
            }
            if self.parts.is_correct_dealer[i] {
                count = count + 1;
            }
            i = i + 1;
        }
        assert(self.parts.is_correct_dealer@.subrange(0, i as int) =~= self.parts.is_correct_dealer@);
        count
    }

    /// Counts the authorities whose encryption key is stored.
    pub fn count_encryption_keys_received(&self) -> (count: u64)
        requires
            self.wf(),
        ensures
            count == self@.count_encryption_keys(),
    {
        let ghost flags = Seq::new(
            self@.encryption_pks.len(),
            |i: int| self@.encryption_pks[i].is_some(),
        );
        let mut count: u64 = 0;
        let mut i: usize = 0;
        assert(flags.subrange(0, 0) =~= Seq::empty());
        while i < self.parts.encryption_pks.len()
            invariant
                i <= self.parts.encryption_pks.len(),
                flags.len() == self.parts.encryption_pks.len(),
                forall|k: int| 0 <= k < flags.len() ==> flags[k] == self.parts.encryption_pks@[k].is_some(),
                count <= i,
                count == spec_count(flags.subrange(0, i as int)),
            decreases self.parts.encryption_pks.len() - i,
        {
            proof {
                let next = flags.subrange(0, i + 1);
                assert(next.drop_last() =~= flags.subrange(0, i as int));
            }
            if self.parts.encryption_pks[i].is_some() {
                count = count + 1;
            }
            i = i + 1;
        }
        assert(flags.subrange(0, i as int) =~= flags);
        count
    }

    /// Tells of each authority whether it counts as a correct dealer.
    pub fn is_correct_dealer(&self) -> (flags: Vec<bool>)
        ensures
            flags@ == self@.is_correct_dealer,
    {
        let mut flags: Vec<bool> = Vec::new();
        let mut i: usize = 0;
        while i < self.parts.is_correct_dealer.len()
            invariant
                i <= self.parts.is_correct_dealer.len(),
                flags@ == self.parts.is_correct_dealer@.subrange(0, i as int),
            decreases self.parts.is_correct_dealer.len() - i,
        {
            flags.push(self.parts.is_correct_dealer[i]);
            assert(flags@ =~= self.parts.is_correct_dealer@.subrange(0, i + 1));
            i = i + 1;
        }
        assert(self.parts.is_correct_dealer@.subrange(0, i as int) =~= self.parts.is_correct_dealer@);
        flags
    }

    /// The encryption key that authority `ix` published, if any.
    pub fn encryption_pk(&self, ix: AuthIndex) -> (pk: Option<&T::EncryptionPublicKey>)
        requires
            self.wf(),
        ensures
            ix >= self@.n_members() ==> pk.is_none(),
            ix < self@.n_members() ==> match self@.encryption_pks[ix as int] {
                Some(stored) => pk == Some(&stored),
                None => pk.is_none(),
            },
    {
        if ix >= self.parts.encryption_pks.len() as u64 {
            return None;
        }
        self.parts.encryption_pks[ix as usize].as_ref()
    }

    /// The commitments that dealer `ix` published, if any.
    pub fn committed_polynomial(&self, ix: AuthIndex) -> (poly: Option<&Vec<T::Commitment>>)
        requires
            self.wf(),
        ensures
            ix >= self@.n_members() ==> poly.is_none(),
            ix < self@.n_members() ==> match self@.committed_polynomials[ix as int] {
                Some(stored) => poly.is_some() && poly.unwrap()@ == stored,
                None => poly.is_none(),
            },
    {
        if ix >= self.parts.committed_polynomials.len() as u64 {
            return None;
        }
        self.parts.committed_polynomials[ix as usize].as_ref()
    }

    /// The share that dealer `creator` dealt to `recipient`, if any.
    pub fn encrypted_share(&self, creator: AuthIndex, recipient: AuthIndex) -> (share: Option<
        &T::EncryptedShare,
    >)
        requires
            self.wf(),
        ensures
            creator >= self@.n_members() || recipient >= self@.n_members() ==> share.is_none(),
            creator < self@.n_members() && recipient < self@.n_members()
                ==> match self@.encrypted_shares[creator as int][recipient as int] {
                Some(stored) => share == Some(&stored),
                None => share.is_none(),
            },
    {
        let n: u64 = self.parts.encrypted_shares.len() as u64;
        if creator >= n || recipient >= n {
            return None;
        }
        assert(self@.encrypted_shares[creator as int].len() == n);
        self.parts.encrypted_shares[creator as usize][recipient as usize].as_ref()
    }

    /// Lists the qualified dealers in rising order: those that count as
    /// correct and whose commitments are stored.
    pub fn qualified_dealers(&self) -> (dealers: Vec<AuthIndex>)
        requires
            self.wf(),
        ensures
            dealers@ == self@.qualified(),
    {
        let mut dealers: Vec<AuthIndex> = Vec::new();
        let n: usize = self.parts.authorities.len();
        let mut i: usize = 0;
        while i < n
            invariant
                i <= n,
                n == self@.n_members(),
                self.wf(),
                dealers@ == self@.qualified_below(i as nat),
            decreases n - i,
        {
            assert(self@.committed_polynomials[i as int].is_some()
                == self.parts.committed_polynomials@[i as int].is_some());
            if self.parts.is_correct_dealer[i] && self.parts.committed_polynomials[i].is_some() {
                dealers.push(i as u64);
            }
            i = i + 1;
        }
        dealers
    }

    /// Lists, for the qualified dealers in rising order, the commitment to
    /// the secret of each: what the key of the committee is derived from.
    pub fn secret_commitments(&self) -> (commitments: Vec<&T::Commitment>)
        requires
            self.wf(),
        ensures
            commitments@.len() == self@.secret_commitments().len(),
            forall|k: int|
                0 <= k < commitments@.len() ==> *(#[trigger] commitments@[k])
                    == self@.secret_commitments()[k],
    {
        let dealers = self.qualified_dealers();
        let mut commitments: Vec<&T::Commitment> = Vec::new();
        let mut k: usize = 0;
        while k < dealers.len()
            invariant
                k <= dealers.len(),
                self.wf(),
                dealers@ == self@.qualified(),
                commitments@.len() == k,
                forall|m: int|
                    0 <= m < k ==> *(#[trigger] commitments@[m]) == self@.secret_commitments()[m],
            decreases dealers.len() - k,
        {
            let dealer: u64 = dealers[k];
            proof {
                lemma_qualified_members(self@, self@.n_members());
                assert(self@.is_qualified(dealers@[k as int] as int));
                assert(self.parts.committed_polynomials@[dealer as int].is_some());
                assert(self@.committed_polynomials[dealer as int].unwrap()
                    == self.parts.committed_polynomials@[dealer as int].unwrap()@);
            }
            match &self.parts.committed_polynomials[dealer as usize] {
                Some(poly) => {
                    commitments.push(&poly[0]);
                },
                None => {},
            }
            k = k + 1;
        }
        commitments
    }

    /// Tells whether the end of block `bn` is the time to derive the keys
    /// from the commitments of the qualified dealers.
    pub fn wants_keys(&self, bn: u64) -> (wanted: bool)
        requires
            self.wf(),
        ensures
            wanted == self@.wants_keys(bn as nat),
    {
        if self.parts.threshold == 0 || bn != self.round_end(2) {
            return false;
        }
        let dealers = self.qualified_dealers();
        dealers.len() > 0
    }

    /// Ends block `bn`. Raises one event for each round that the block
    /// ends, with the number of encryption keys received for round 0 and
    /// the number of correct dealers for the later rounds.
    ///
    /// At the end of round 2, when some dealer is qualified, the keys are
    /// stored: `keys` then holds the key of the committee and one key for
    /// each member, as the host derived them from the commitments of the
    /// qualified dealers at the members' points. At every other block
    /// `keys` is passed over. So after the end of round 2 the keys are
    /// there exactly when a dealer is qualified.
    pub fn on_finalize(&mut self, bn: u64, keys: Option<(T::VerifyKey, Vec<T::VerifyKey>)>) -> (events:
        Vec<Event>)
        requires
            old(self).wf(),
            old(self)@.fits_keys(bn as nat, spec_key_values::<T>(keys)),
        ensures
            final(self).wf(),
            events@ == old(self)@.events_at(bn as nat),
            final(self)@ == old(self)@.finalize(bn as nat, spec_key_values::<T>(keys)),
            final(self)@.verification_keys.is_some() == (old(self)@.verification_keys.is_some()
                || old(self)@.wants_keys(bn as nat)),
            old(self)@.wants_keys(bn as nat) ==> final(self)@.verification_keys == Some(
                spec_key_values::<T>(keys).unwrap().1,
            ) && final(self)@.verification_keys.unwrap().len() == final(self)@.n_members(),
    {
        let ghost key_values = spec_key_values::<T>(keys);
        let mut events: Vec<Event> = Vec::new();
        let mut round: usize = 0;
        while round < 4
            invariant
                round <= 4,
                self.wf(),
                self == old(self),
                round == 0 ==> events@ == Seq::<Event>::empty(),
                round == 1 ==> events@ == self@.round_event(bn as nat, 0),
                round == 2 ==> events@ == self@.round_event(bn as nat, 0) + self@.round_event(
                    bn as nat,
                    1,
                ),
                round == 3 ==> events@ == self@.round_event(bn as nat, 0) + self@.round_event(
                    bn as nat,
                    1,
                ) + self@.round_event(bn as nat, 2),
                round == 4 ==> events@ == self@.events_at(bn as nat),
            decreases 4 - round,
        {
            let ghost before = events@;
            if bn == self.round_end(round) {
                let count: u64 = if round == 0 {
                    self.count_encryption_keys_received()
                } else {
                    self.count_successful_nodes()
                };
                events.push(Event::RoundEnded(round as u64, count));
                assert(events@ =~= before + self@.round_event(bn as nat, round as nat));
            } else {
                assert(events@ =~= before + self@.round_event(bn as nat, round as nat));
            }
            round = round + 1;
        }
        if !self.wants_keys(bn) {
            return events;
        }
        match keys {
            Some(pair) => {
                self.parts.master_verification_key = Some(pair.0);
                self.parts.verification_keys = Some(pair.1);
                proof {
                    let after = old(self)@.finalize(bn as nat, key_values);
                    assert(self@.committed_polynomials =~= after.committed_polynomials);
                    assert(self@.encrypted_shares =~= after.encrypted_shares);
                    assert(self@ =~= after);
                }
            },
            None => {},
        }
        events
    }

    /// The key of the committee, once it is stored.
    pub fn master_verification_key(&self) -> (key: Option<&T::VerifyKey>)
        ensures
            match self@.master_verification_key {
                Some(stored) => key == Some(&stored),
                None => key.is_none(),
            },
    {
        self.parts.master_verification_key.as_ref()
    }

    /// The keys of the members, once they are stored.
    pub fn verification_keys(&self) -> (keys: Option<&Vec<T::VerifyKey>>)
        ensures
            match self@.verification_keys {
                Some(stored) => keys.is_some() && keys.unwrap()@ == stored,
                None => keys.is_none(),
            },
    {
        self.parts.verification_keys.as_ref()
    }

    /// What a node needs to verify with, once the keys are stored: the
    /// least position in the committee that one of the node's own
    /// `local_keys` holds, if any, then the keys of the members, the key
    /// of the committee, and the threshold.
    pub fn public_keybox_parts(&self, local_keys: &Vec<DKGId>) -> (parts: Option<
        (Option<AuthIndex>, &Vec<T::VerifyKey>, &T::VerifyKey, u64),
    >)
        requires
            self.wf(),
        ensures
            parts.is_some() == self@.verification_keys.is_some(),
            parts matches Some(found) ==> {
                &&& match found.0 {
                    Some(ix) => spec_first_local(self@.authorities, local_keys@) == Some(ix as int),
                    None => spec_first_local(self@.authorities, local_keys@).is_none(),
                }
                &&& found.1@ == self@.verification_keys.unwrap()
                &&& *found.2 == self@.master_verification_key.unwrap()
                &&& found.3 == self@.threshold
            },
    {
        let ix: Option<AuthIndex> = match first_local(&self.parts.authorities, local_keys) {
            Some(i) => Some(i as u64),
            None => None,
        };
        let verification_keys = match self.verification_keys() {
            Some(keys) => keys,
            None => {
                return None;
            },
        };
        let master_key = match self.master_verification_key() {
            Some(key) => key,
            None => {
                return None;
            },
        };
        Some((ix, verification_keys, master_key, self.parts.threshold))
    }
    /// The committee, in its order.
    pub fn authorities(&self) -> (committee: &Vec<DKGId>)
        ensures
            committee@ == self@.authorities,
    {
        &self.parts.authorities
    }

    /// The encryption keys of dealer `creator` and of recipient `issuer`,
    /// if both are stored: what the key that the two share is checked
    /// against.
    pub fn key_pair(&self, creator: AuthIndex, issuer: AuthIndex) -> (pair: Option<
        (&T::EncryptionPublicKey, &T::EncryptionPublicKey),
    >)
        requires
            self.wf(),
        ensures
            pair.is_some() == (creator < self@.n_members() && issuer < self@.n_members()
                && self@.encryption_pks[creator as int].is_some()
                && self@.encryption_pks[issuer as int].is_some()),
            pair matches Some(keys) ==> *keys.0 == self@.encryption_pks[creator as int].unwrap()
                && *keys.1 == self@.encryption_pks[issuer as int].unwrap(),
    {
        match (self.encryption_pk(creator), self.encryption_pk(issuer)) {
            (Some(of_creator), Some(of_issuer)) => Some((of_creator, of_issuer)),
            _ => None,
        }
    }

    /// What it takes to check the share that dealer `creator` dealt to
    /// `recipient`, if all of it is stored: the dealer's encryption key,
    /// the encrypted share, the dealer's commitments, and the recipient's
    /// point, at which the commitments are evaluated.
    pub fn dealt_share(&self, creator: AuthIndex, recipient: AuthIndex) -> (dealt: Option<
        (&T::EncryptionPublicKey, &T::EncryptedShare, &Vec<T::Commitment>, Scalar),
    >)
        requires
            self.wf(),
        ensures
            dealt.is_some() == (creator < self@.n_members() && recipient < self@.n_members()
                && self@.encryption_pks[creator as int].is_some()
                && self@.encrypted_shares[creator as int][recipient as int].is_some()
                && self@.committed_polynomials[creator as int].is_some()),
            dealt matches Some(parts) ==> *parts.0 == self@.encryption_pks[creator as int].unwrap()
                && *parts.1 == self@.encrypted_shares[creator as int][recipient as int].unwrap()
                && parts.2@ == self@.committed_polynomials[creator as int].unwrap() && parts.3@
                == spec_member_point(recipient as nat),
    {
        match (
            self.encryption_pk(creator),
            self.encrypted_share(creator, recipient),
            self.committed_polynomial(creator),
        ) {
            (Some(pk), Some(share), Some(poly)) => Some(
                (pk, share, poly, member_point(recipient)),
            ),
            _ => None,
        }
    }

    /// Lists the points of the members in the order of the committee: the
    /// key of each member is derived from the commitments of the qualified
    /// dealers evaluated at the member's point.
    pub fn member_points(&self) -> (points: Vec<Scalar>)
        ensures
            points@.len() == self@.n_members(),
            forall|ix: int|
                0 <= ix < points@.len() ==> (#[trigger] points@[ix])@ == spec_member_point(
                    ix as nat,
                ),
    {
        let n: usize = self.parts.authorities.len();
        let mut points: Vec<Scalar> = Vec::new();
        let mut ix: usize = 0;
        while ix < n
            invariant
                ix <= n,
                points@.len() == ix,
                forall|k: int|
                    0 <= k < ix ==> (#[trigger] points@[k])@ == spec_member_point(k as nat),
            decreases n - ix,
        {
            points.push(member_point(ix as u64));
            ix = ix + 1;
        }
        points
    }

    /// Lists, for the qualified dealers in rising order, the commitments
    /// of each: what the keys of the members are derived from.
    pub fn qualified_polynomials(&self) -> (polys: Vec<&Vec<T::Commitment>>)
        requires
            self.wf(),
        ensures
            polys@.len() == self@.qualified().len(),
            forall|k: int|
                0 <= k < polys@.len() ==> (#[trigger] polys@[k])@
                    == self@.committed_polynomials[self@.qualified()[k] as int].unwrap(),
    {
        let dealers = self.qualified_dealers();
        let mut polys: Vec<&Vec<T::Commitment>> = Vec::new();
        let mut k: usize = 0;
        while k < dealers.len()
            invariant
                k <= dealers.len(),
                self.wf(),
                dealers@ == self@.qualified(),
                polys@.len() == k,
                forall|m: int|
                    0 <= m < k ==> (#[trigger] polys@[m])@
                        == self@.committed_polynomials[self@.qualified()[m] as int].unwrap(),
            decreases dealers.len() - k,
        {
            let dealer: u64 = dealers[k];
            proof {
                lemma_qualified_members(self@, self@.n_members());
                assert(self@.is_qualified(dealers@[k as int] as int));
            }
            match self.committed_polynomial(dealer) {
                Some(poly) => {
                    polys.push(poly);
                },
                None => {},
            }
            k = k + 1;
        }
        polys
    }

    /// Puts a store together again from its parts. The parts are taken
    /// when they are in order, and refused otherwise.
    pub fn restore(parts: Parts<T>) -> (module: Option<Self>)
        ensures
            module.is_some() == parts@.inv(),
            module matches Some(m) ==> m@ == parts@ && m.wf(),
    {
        let n: usize = parts.authorities.len();
        if parts.threshold > n as u64 || parts.encryption_pks.len() != n
            || parts.committed_polynomials.len() != n || parts.encrypted_shares.len() != n
            || parts.is_correct_dealer.len() != n {
            return None;
        }
        match (&parts.master_verification_key, &parts.verification_keys) {
            (Some(_), Some(keys)) => {
                if keys.len() != n || parts.threshold == 0 {
                    return None;
                }
            },
            (None, None) => {},
            _ => {
                return None;
            },
        }
        let mut i: usize = 0;
        while i < n
            invariant
                i <= n,
                n == parts.authorities.len(),
                parts.encryption_pks.len() == n,
                parts.committed_polynomials.len() == n,
                parts.encrypted_shares.len() == n,
                parts.is_correct_dealer.len() == n,
                forall|k: int|
                    0 <= k < i && k < n - 1 ==> !spec_id_before(
                        #[trigger] parts.authorities@[k + 1],
                        parts.authorities@[k],
                    ),
                forall|k: int| 0 <= k < i ==> (#[trigger] parts@.encrypted_shares[k]).len() == n,
                forall|k: int|
                    0 <= k < i ==> (#[trigger] parts@.committed_polynomials[k] matches Some(p)
                        ==> p.len() == parts.threshold && parts.threshold > 0),
                forall|k: int|
                    0 <= k < i ==> (#[trigger] parts@.is_correct_dealer[k]
                        ==> parts@.encryption_pks[k].is_some()
                        && parts@.committed_polynomials[k].is_some()),
            decreases n - i,
        {
            if i + 1 < n && id_before(&parts.authorities[i + 1], &parts.authorities[i]) {
                assert(!spec_sorted(parts@.authorities));
                return None;
            }
            if parts.encrypted_shares[i].len() != n {
                assert(parts@.encrypted_shares[i as int].len() != n);
                return None;
            }
            match &parts.committed_polynomials[i] {
                Some(poly) => {
                    if poly.len() as u64 != parts.threshold || parts.threshold == 0 {
                        assert(parts@.committed_polynomials[i as int] == Some(poly@));
                        return None;
                    }
                },
                None => {},
            }
            if parts.is_correct_dealer[i] && (parts.encryption_pks[i].is_none()
                || parts.committed_polynomials[i].is_none()) {
                assert(parts@.is_correct_dealer[i as int]);
                return None;
            }
            i = i + 1;
        }
        let module = Module { parts };
        Some(module)
    }

    /// Takes the store apart, for the host to keep.
    pub fn into_parts(self) -> (parts: Parts<T>)
        ensures
            parts@ == self@,
    {
        self.parts
    }
}

} // verus!
