//! The on-chain store as a mathematical value, and what each submission and
//! the finalizer make of it.

use vstd::prelude::*;
use crate::schedule::{spec_in_round, spec_round_end};
use crate::types::{spec_sorted, AuthIndex, BlockHash, Chain, DKGId, Dispute, Event, Trait};

verus! {

/// Everything that the chain stores for one run of the key generation.
/// Each sequence is indexed by the position of an authority in the
/// committee.
pub struct Store<T: Trait> {
    /// The block by which the last round must be over.
    pub dkg_ready: nat,
    /// The committee, sorted.
    pub authorities: Seq<DKGId>,
    /// The threshold; zero until it is set.
    pub threshold: nat,
    /// The encryption key that each authority published in round 0.
    pub encryption_pks: Seq<Option<T::EncryptionPublicKey>>,
    /// The commitments to its polynomial that each dealer published in
    /// round 1.
    pub committed_polynomials: Seq<Option<Seq<T::Commitment>>>,
    /// The encrypted shares: first index the dealer, second the recipient.
    pub encrypted_shares: Seq<Seq<Option<T::EncryptedShare>>>,
    /// Whether each authority dealt in time and was not proved wrong since.
    pub is_correct_dealer: Seq<bool>,
    /// The key of the whole committee.
    pub master_verification_key: Option<T::VerifyKey>,
    /// The key of each member.
    pub verification_keys: Option<Seq<T::VerifyKey>>,
}

/// A submission that an authority may sign.
pub enum Submission<T: Trait> {
    /// The encryption key of authority `ix`.
    EncryptionKey { ix: AuthIndex, pk: T::EncryptionPublicKey },
    /// The shares and the commitments that dealer `ix` publishes, bound to
    /// the block that ended round 0.
    SecretShares {
        ix: AuthIndex,
        shares: Seq<Option<T::EncryptedShare>>,
        comm_poly: Seq<T::Commitment>,
        hash_round0: BlockHash,
    },
    /// The complaints of recipient `ix`, bound to the block that ended
    /// round 1.
    Disputes { ix: AuthIndex, disputes: Seq<Dispute>, hash_round1: BlockHash },
}

/// The number of `true` among `flags`.
pub open spec fn spec_count(flags: Seq<bool>) -> nat
    decreases flags.len(),
{
    if flags.len() == 0 {
        0
    } else {
        spec_count(flags.drop_last()) + if flags.last() {
            1nat
        } else {
            0nat
        }
    }
}

impl<T: Trait> Store<T> {
    /// The size of the committee.
    pub open spec fn n_members(self) -> nat {
        self.authorities.len()
    }

    /// What holds of the store at all times.
    pub open spec fn inv(self) -> bool {
        let n = self.authorities.len();
        &&& self.dkg_ready <= u64::MAX
        &&& n <= usize::MAX
        &&& self.threshold <= n
        &&& spec_sorted(self.authorities)
        &&& self.encryption_pks.len() == n
        &&& self.committed_polynomials.len() == n
        &&& self.encrypted_shares.len() == n
        &&& self.is_correct_dealer.len() == n
        &&& forall|i: int| 0 <= i < n ==> (#[trigger] self.encrypted_shares[i]).len() == n
        &&& forall|i: int|
            0 <= i < n ==> (#[trigger] self.committed_polynomials[i] matches Some(p) ==> p.len()
                == self.threshold && self.threshold > 0)
        &&& forall|i: int|
            0 <= i < n ==> (#[trigger] self.is_correct_dealer[i] ==> self.encryption_pks[i].is_some()
                && self.committed_polynomials[i].is_some())
        &&& self.master_verification_key.is_some() == self.verification_keys.is_some()
        &&& self.master_verification_key.is_some() ==> self.threshold > 0
        &&& self.verification_keys matches Some(keys) ==> keys.len() == n
    }

    /// The store before genesis: no committee, no threshold, nothing
    /// submitted.
    pub open spec fn empty(dkg_ready: nat) -> Self {
        Store {
            dkg_ready,
            authorities: Seq::empty(),
            threshold: 0,
            encryption_pks: Seq::empty(),
            committed_polynomials: Seq::empty(),
            encrypted_shares: Seq::empty(),
            is_correct_dealer: Seq::empty(),
            master_verification_key: None,
            verification_keys: None,
        }
    }

    /// The store with `committee` as its authorities and nothing submitted.
    pub open spec fn with_committee(self, committee: Seq<DKGId>) -> Self {
        let n = committee.len();
        Store {
            authorities: committee,
            encryption_pks: Seq::new(n, |i: int| None),
            committed_polynomials: Seq::new(n, |i: int| None),
            encrypted_shares: Seq::new(n, |i: int| Seq::new(n, |j: int| None)),
            is_correct_dealer: Seq::new(n, |i: int| false),
            ..self
        }
    }

    /// Whether the threshold is set, so that submissions are taken.
    pub open spec fn started(self) -> bool {
        self.threshold > 0
    }

    /// Whether `who` is the authority at position `ix`.
    pub open spec fn is_authority(self, ix: AuthIndex, who: DKGId) -> bool {
        ix < self.authorities.len() && self.authorities[ix as int] == who
    }

    /// The deadline of `round`.
    pub open spec fn round_end(self, round: nat) -> nat {
        spec_round_end(self.dkg_ready, round)
    }

    /// The number of authorities whose encryption key is stored.
    pub open spec fn count_encryption_keys(self) -> nat {
        spec_count(
            Seq::new(self.encryption_pks.len(), |i: int| self.encryption_pks[i].is_some()),
        )
    }

    /// The number of authorities that count as correct dealers.
    pub open spec fn count_successful(self) -> nat {
        spec_count(self.is_correct_dealer)
    }

    /// Whether the encryption key of `ix` signed by `who` is taken at `chain`.
    pub open spec fn accepts_encryption_key(self, chain: Chain, who: DKGId, ix: AuthIndex) -> bool {
        &&& self.started()
        &&& spec_in_round(self.dkg_ready, 0, chain.block_number as nat)
        &&& self.is_authority(ix, who)
    }

    /// The store after `who` has submitted `pk` as the encryption key of
    /// `ix`.
    pub open spec fn post_encryption_key(
        self,
        chain: Chain,
        who: DKGId,
        ix: AuthIndex,
        pk: T::EncryptionPublicKey,
    ) -> Self {
        if self.accepts_encryption_key(chain, who, ix) {
            Store { encryption_pks: self.encryption_pks.update(ix as int, Some(pk)), ..self }
        } else {
            self
        }
    }

    /// Whether the shares and commitments of dealer `ix` signed by `who`
    /// are taken at `chain`.
    pub open spec fn accepts_secret_shares(
        self,
        chain: Chain,
        who: DKGId,
        ix: AuthIndex,
        n_shares: nat,
        n_commitments: nat,
        hash_round0: BlockHash,
    ) -> bool {
        &&& self.started()
        &&& spec_in_round(self.dkg_ready, 1, chain.block_number as nat)
        &&& self.is_authority(ix, who)
        &&& n_shares == self.n_members()
        &&& n_commitments == self.threshold
        &&& self.encryption_pks[ix as int].is_some()
        &&& hash_round0 == chain.hash_round0
    }

    /// The shares that `dealer` has dealt once `shares` are laid over them:
    /// a share that is given replaces the one before it, an empty place
    /// leaves it.
    pub open spec fn overlaid_shares(
        self,
        dealer: int,
        shares: Seq<Option<T::EncryptedShare>>,
    ) -> Seq<Option<T::EncryptedShare>> {
        Seq::new(
            shares.len(),
            |j: int|
                if shares[j].is_some() {
                    shares[j]
                } else {
                    self.encrypted_shares[dealer][j]
                },
        )
    }

    /// The store after `who` has submitted the shares and commitments of
    /// dealer `ix`.
    pub open spec fn post_secret_shares(
        self,
        chain: Chain,
        who: DKGId,
        ix: AuthIndex,
        shares: Seq<Option<T::EncryptedShare>>,
        comm_poly: Seq<T::Commitment>,
        hash_round0: BlockHash,
    ) -> Self {
        if self.accepts_secret_shares(chain, who, ix, shares.len(), comm_poly.len(), hash_round0) {
            Store {
                encrypted_shares: self.encrypted_shares.update(
                    ix as int,
                    self.overlaid_shares(ix as int, shares),
                ),
                committed_polynomials: self.committed_polynomials.update(
                    ix as int,
                    Some(comm_poly),
                ),
                is_correct_dealer: self.is_correct_dealer.update(ix as int, true),
                ..self
            }
        } else {
            self
        }
    }

    /// Whether the complaints of recipient `ix` signed by `who` are looked
    /// at at `chain`.
    pub open spec fn accepts_disputes(
        self,
        chain: Chain,
        who: DKGId,
        ix: AuthIndex,
        hash_round1: BlockHash,
    ) -> bool {
        &&& self.started()
        &&& spec_in_round(self.dkg_ready, 2, chain.block_number as nat)
        &&& self.is_authority(ix, who)
        &&& hash_round1 == chain.hash_round1
    }

    /// Whether the complaint `dispute` of recipient `ix` proves dealer
    /// `creator` wrong: it names that dealer, both encryption keys are
    /// stored and give the presented key, and the share is missing or does
    /// not open the dealer's commitment.
    pub open spec fn refutes(self, ix: AuthIndex, dispute: Dispute, creator: int) -> bool {
        &&& dispute.creator == creator
        &&& 0 <= creator < self.n_members()
        &&& self.encryption_pks[creator].is_some()
        &&& self.encryption_pks[ix as int].is_some()
        &&& dispute.key_is_correct
        &&& (self.encrypted_shares[creator][ix as int].is_none()
            || self.committed_polynomials[creator].is_none() || !dispute.share_is_valid)
    }

    /// Whether one of `disputes` proves dealer `creator` wrong.
    pub open spec fn disputed(self, ix: AuthIndex, disputes: Seq<Dispute>, creator: int) -> bool {
        exists|k: int| 0 <= k < disputes.len() && self.refutes(ix, #[trigger] disputes[k], creator)
    }

    /// The store after `who` has submitted the complaints of recipient
    /// `ix`: a dealer stays correct if it was and no complaint proves it
    /// wrong.
    pub open spec fn post_disputes(
        self,
        chain: Chain,
        who: DKGId,
        ix: AuthIndex,
        disputes: Seq<Dispute>,
        hash_round1: BlockHash,
    ) -> Self {
        if self.accepts_disputes(chain, who, ix, hash_round1) {
            Store {
                is_correct_dealer: Seq::new(
                    self.is_correct_dealer.len(),
                    |c: int| self.is_correct_dealer[c] && !self.disputed(ix, disputes, c),
                ),
                ..self
            }
        } else {
            self
        }
    }

    /// The store after `who` has made `submission` at `chain`.
    pub open spec fn apply(self, chain: Chain, who: DKGId, submission: Submission<T>) -> Self {
        match submission {
            Submission::EncryptionKey { ix, pk } => self.post_encryption_key(chain, who, ix, pk),
            Submission::SecretShares { ix, shares, comm_poly, hash_round0 } => {
                self.post_secret_shares(chain, who, ix, shares, comm_poly, hash_round0)
            },
            Submission::Disputes { ix, disputes, hash_round1 } => {
                self.post_disputes(chain, who, ix, disputes, hash_round1)
            },
        }
    }

    /// Whether `submission`, made by `who` at `chain`, proves dealer
    /// `creator` wrong.
    pub open spec fn confirms_dispute(
        self,
        chain: Chain,
        who: DKGId,
        submission: Submission<T>,
        creator: int,
    ) -> bool {
        match submission {
            Submission::Disputes { ix, disputes, hash_round1 } => {
                self.accepts_disputes(chain, who, ix, hash_round1) && self.disputed(
                    ix,
                    disputes,
                    creator,
                )
            },
            _ => false,
        }
    }

    /// Whether dealer `i` is qualified: it counts as correct and its
    /// commitments are stored.
    pub open spec fn is_qualified(self, i: int) -> bool {
        &&& 0 <= i < self.n_members()
        &&& self.is_correct_dealer[i]
        &&& self.committed_polynomials[i].is_some()
    }

    /// The qualified dealers among the first `n` authorities, in rising
    /// order.
    pub open spec fn qualified_below(self, n: nat) -> Seq<AuthIndex>
        decreases n,
    {
        if n == 0 {
            Seq::empty()
        } else if self.is_qualified(n - 1) {
            self.qualified_below((n - 1) as nat).push((n - 1) as AuthIndex)
        } else {
            self.qualified_below((n - 1) as nat)
        }
    }

    /// The qualified dealers, in rising order.
    pub open spec fn qualified(self) -> Seq<AuthIndex> {
        self.qualified_below(self.n_members())
    }

    /// The commitment to the secret of each qualified dealer: the first
    /// commitment of its polynomial.
    pub open spec fn secret_commitments(self) -> Seq<T::Commitment> {
        self.qualified().map_values(
            |i: AuthIndex| self.committed_polynomials[i as int].unwrap()[0],
        )
    }

    /// The number of members that the event for the end of `round` tells:
    /// the encryption keys received for round 0, the correct dealers for
    /// the later rounds.
    pub open spec fn round_count(self, round: nat) -> nat {
        if round == 0 {
            self.count_encryption_keys()
        } else {
            self.count_successful()
        }
    }

    /// The event for the end of `round`, if block `bn` ends it.
    pub open spec fn round_event(self, bn: nat, round: nat) -> Seq<Event> {
        if bn == self.round_end(round) {
            seq![Event::RoundEnded(round as u64, self.round_count(round) as u64)]
        } else {
            Seq::empty()
        }
    }

    /// The events that the end of block `bn` raises, one for each round
    /// that the block ends, in the order of the rounds.
    pub open spec fn events_at(self, bn: nat) -> Seq<Event> {
        self.round_event(bn, 0) + self.round_event(bn, 1) + self.round_event(bn, 2)
            + self.round_event(bn, 3)
    }

    /// Whether the end of block `bn` is the time to derive the keys: the
    /// block ends round 2, and some dealer is qualified.
    pub open spec fn wants_keys(self, bn: nat) -> bool {
        &&& self.started()
        &&& bn == self.round_end(2)
        &&& self.qualified().len() > 0
    }

    /// Whether the host has done its part for the end of block `bn`: when
    /// it is the time to derive the keys, `keys` holds the key of the
    /// committee and one key for each member.
    pub open spec fn fits_keys(self, bn: nat, keys: Option<(T::VerifyKey, Seq<T::VerifyKey>)>) -> bool {
        self.wants_keys(bn) ==> (keys matches Some(pair) && pair.1.len() == self.n_members())
    }

    /// The store after the end of block `bn`, at which the host derived
    /// `keys`: when it is the time to derive the keys, they are stored.
    pub open spec fn finalize(self, bn: nat, keys: Option<(T::VerifyKey, Seq<T::VerifyKey>)>) -> Self {
        if self.wants_keys(bn) && keys.is_some() {
            Store {
                master_verification_key: Some(keys.unwrap().0),
                verification_keys: Some(keys.unwrap().1),
                ..self
            }
        } else {
            self
        }
    }
}

} // verus!
