//! What holds of the store whatever is submitted to it.

use vstd::prelude::*;
use crate::offchain::{spec_complains, spec_keeps_share};
use crate::schedule::spec_in_round;
use crate::store::{Store, Submission};
use crate::types::{AuthIndex, BlockHash, Chain, DKGId, Dispute, Trait};

verus! {

/// One signed submission as the chain applies it.
pub struct Step<T: Trait> {
    /// What the host reports of the chain at that block.
    pub chain: Chain,
    /// Who signed.
    pub who: DKGId,
    /// What was submitted.
    pub submission: Submission<T>,
}

/// The store after the chain has applied `steps` in order.
pub open spec fn spec_run<T: Trait>(store: Store<T>, steps: Seq<Step<T>>) -> Store<T>
    decreases steps.len(),
{
    if steps.len() == 0 {
        store
    } else {
        let last = steps.last();
        spec_run(store, steps.drop_last()).apply(last.chain, last.who, last.submission)
    }
}

/// A submission leaves the store in order, with the committee and the
/// threshold it had.
pub proof fn lemma_apply_keeps_inv<T: Trait>(
    store: Store<T>,
    chain: Chain,
    who: DKGId,
    submission: Submission<T>,
)
    requires
        store.inv(),
    ensures
        store.apply(chain, who, submission).inv(),
        store.apply(chain, who, submission).authorities == store.authorities,
        store.apply(chain, who, submission).threshold == store.threshold,
        store.apply(chain, who, submission).dkg_ready == store.dkg_ready,
{
}

/// Shares bound to another block than the one that ended round 0 change
/// nothing.
pub proof fn lemma_stale_shares_change_nothing<T: Trait>(
    store: Store<T>,
    chain: Chain,
    who: DKGId,
    ix: AuthIndex,
    shares: Seq<Option<T::EncryptedShare>>,
    comm_poly: Seq<T::Commitment>,
    hash_round0: BlockHash,
)
    requires
        hash_round0 != chain.hash_round0,
    ensures
        store.post_secret_shares(chain, who, ix, shares, comm_poly, hash_round0) == store,
{
}

/// Complaints bound to another block than the one that ended round 1
/// change nothing.
pub proof fn lemma_stale_disputes_change_nothing<T: Trait>(
    store: Store<T>,
    chain: Chain,
    who: DKGId,
    ix: AuthIndex,
    disputes: Seq<Dispute>,
    hash_round1: BlockHash,
)
    requires
        hash_round1 != chain.hash_round1,
    ensures
        store.post_disputes(chain, who, ix, disputes, hash_round1) == store,
{
}

/// A submission that is not signed by the authority it names changes
/// nothing.
pub proof fn lemma_wrong_signer_changes_nothing<T: Trait>(
    store: Store<T>,
    chain: Chain,
    who: DKGId,
    submission: Submission<T>,
)
    requires
        match submission {
            Submission::EncryptionKey { ix, .. } => !store.is_authority(ix, who),
            Submission::SecretShares { ix, .. } => !store.is_authority(ix, who),
            Submission::Disputes { ix, .. } => !store.is_authority(ix, who),
        },
    ensures
        store.apply(chain, who, submission) == store,
{
}

/// A dealer whose shares are taken counts as correct right after.
pub proof fn lemma_taken_shares_qualify<T: Trait>(
    store: Store<T>,
    chain: Chain,
    who: DKGId,
    ix: AuthIndex,
    shares: Seq<Option<T::EncryptedShare>>,
    comm_poly: Seq<T::Commitment>,
    hash_round0: BlockHash,
)
    requires
        store.inv(),
        store.accepts_secret_shares(chain, who, ix, shares.len(), comm_poly.len(), hash_round0),
    ensures
        store.post_secret_shares(chain, who, ix, shares, comm_poly, hash_round0).is_qualified(
            ix as int,
        ),
{
}

/// A dealer that counts as correct still does after any submission that
/// does not prove it wrong.
pub proof fn lemma_dealer_stays_correct<T: Trait>(
    store: Store<T>,
    chain: Chain,
    who: DKGId,
    submission: Submission<T>,
    dealer: int,
)
    requires
        store.inv(),
        0 <= dealer < store.n_members(),
        store.is_correct_dealer[dealer],
        !store.confirms_dispute(chain, who, submission, dealer),
    ensures
        store.apply(chain, who, submission).is_correct_dealer[dealer],
{
}

/// A dealer that counts as correct after its shares were taken still does
/// at the end of any run of submissions none of which proves it wrong.
pub proof fn lemma_honest_dealer_stays_correct<T: Trait>(
    store: Store<T>,
    steps: Seq<Step<T>>,
    dealer: int,
)
    requires
        store.inv(),
        0 <= dealer < store.n_members(),
        store.is_correct_dealer[dealer],
        forall|k: int|
            0 <= k < steps.len() ==> !(#[trigger] spec_run(
                store,
                steps.subrange(0, k),
            )).confirms_dispute(steps[k].chain, steps[k].who, steps[k].submission, dealer),
    ensures
        spec_run(store, steps).inv(),
        spec_run(store, steps).n_members() == store.n_members(),
        spec_run(store, steps).is_qualified(dealer),
    decreases steps.len(),
{
    if steps.len() > 0 {
        let front = steps.drop_last();
        let last = steps.last();
        assert forall|k: int| 0 <= k < front.len() implies !(#[trigger] spec_run(
            store,
            front.subrange(0, k),
        )).confirms_dispute(front[k].chain, front[k].who, front[k].submission, dealer) by {
            assert(front.subrange(0, k) =~= steps.subrange(0, k));
        }
        lemma_honest_dealer_stays_correct(store, front, dealer);
        let before = spec_run(store, front);
        assert(steps.subrange(0, steps.len() - 1) =~= front);
        lemma_apply_keeps_inv(before, last.chain, last.who, last.submission);
        lemma_dealer_stays_correct(before, last.chain, last.who, last.submission, dealer);
    }
}

/// A dealer that a complaint proves wrong does not count as correct after
/// the complaints were looked at: a dealer that still counts as correct
/// was proved wrong by none of them.
pub proof fn lemma_refuted_dealer_is_cleared<T: Trait>(
    store: Store<T>,
    chain: Chain,
    who: DKGId,
    ix: AuthIndex,
    disputes: Seq<Dispute>,
    hash_round1: BlockHash,
    dealer: int,
)
    requires
        store.inv(),
        0 <= dealer < store.n_members(),
        store.accepts_disputes(chain, who, ix, hash_round1),
        store.disputed(ix, disputes, dealer),
    ensures
        !store.post_disputes(chain, who, ix, disputes, hash_round1).is_correct_dealer[dealer],
{
}

/// Complaints can only take the mark of a correct dealer away, and they
/// change nothing else.
pub proof fn lemma_disputes_only_clear<T: Trait>(
    store: Store<T>,
    chain: Chain,
    who: DKGId,
    ix: AuthIndex,
    disputes: Seq<Dispute>,
    hash_round1: BlockHash,
)
    requires
        store.inv(),
    ensures
        ({
            let after = store.post_disputes(chain, who, ix, disputes, hash_round1);
            &&& after == (Store { is_correct_dealer: after.is_correct_dealer, ..store })
            &&& after.is_correct_dealer.len() == store.is_correct_dealer.len()
            &&& forall|c: int|
                0 <= c < store.n_members() && #[trigger] after.is_correct_dealer[c]
                    ==> store.is_correct_dealer[c]
        }),
{
    let after = store.post_disputes(chain, who, ix, disputes, hash_round1);
    assert(after =~= (Store { is_correct_dealer: after.is_correct_dealer, ..store }));
}

/// Complaints made with keys that are not the shared ones change nothing.
pub proof fn lemma_unfounded_disputes_change_nothing<T: Trait>(
    store: Store<T>,
    chain: Chain,
    who: DKGId,
    ix: AuthIndex,
    disputes: Seq<Dispute>,
    hash_round1: BlockHash,
)
    requires
        store.inv(),
        forall|k: int| 0 <= k < disputes.len() ==> !(#[trigger] disputes[k]).key_is_correct,
    ensures
        store.post_disputes(chain, who, ix, disputes, hash_round1) == store,
{
    let after = store.post_disputes(chain, who, ix, disputes, hash_round1);
    assert(after.is_correct_dealer =~= store.is_correct_dealer);
    assert(after =~= store);
}

/// A batch of complaints does what its two halves do one after the other:
/// a complaint that proves nothing does not keep the others from being
/// looked at.
pub proof fn lemma_disputes_in_parts<T: Trait>(
    store: Store<T>,
    chain: Chain,
    who: DKGId,
    ix: AuthIndex,
    first: Seq<Dispute>,
    second: Seq<Dispute>,
    hash_round1: BlockHash,
)
    requires
        store.inv(),
    ensures
        store.post_disputes(chain, who, ix, first + second, hash_round1) == store.post_disputes(
            chain,
            who,
            ix,
            first,
            hash_round1,
        ).post_disputes(chain, who, ix, second, hash_round1),
{
    let whole = store.post_disputes(chain, who, ix, first + second, hash_round1);
    let half = store.post_disputes(chain, who, ix, first, hash_round1);
    let both = half.post_disputes(chain, who, ix, second, hash_round1);
    let all = first + second;
    if store.accepts_disputes(chain, who, ix, hash_round1) {
        assert(half.accepts_disputes(chain, who, ix, hash_round1));
        assert forall|c: int| 0 <= c < store.n_members() implies #[trigger] whole.is_correct_dealer[c]
            == both.is_correct_dealer[c] by {
            assert forall|d: Dispute| store.refutes(ix, d, c) == half.refutes(ix, d, c) by {}
            if store.disputed(ix, first, c) {
                let w = choose|w: int|
                    0 <= w < first.len() && store.refutes(ix, #[trigger] first[w], c);
                assert(all[w] == first[w]);
                assert(store.disputed(ix, all, c));
            }
            if half.disputed(ix, second, c) {
                let w = choose|w: int|
                    0 <= w < second.len() && half.refutes(ix, #[trigger] second[w], c);
                assert(all[first.len() + w] == second[w]);
                assert(store.refutes(ix, all[first.len() + w], c));
                assert(store.disputed(ix, all, c));
            }
            if store.disputed(ix, all, c) {
                let w = choose|w: int| 0 <= w < all.len() && store.refutes(ix, #[trigger] all[w], c);
                if w < first.len() {
                    assert(first[w] == all[w]);
                    assert(store.disputed(ix, first, c));
                } else {
                    assert(second[w - first.len()] == all[w]);
                    assert(half.refutes(ix, second[w - first.len()], c));
                    assert(half.disputed(ix, second, c));
                }
            }
        }
        assert(whole.is_correct_dealer =~= both.is_correct_dealer);
        assert(whole =~= both);
    }
}

/// The end of a block for which the host has done its part leaves the
/// store in order; and when it is the time to derive the keys, one key
/// for each member of the committee is stored. The marks of correct
/// dealers stay as they are.
pub proof fn lemma_finalize_keeps_inv<T: Trait>(
    store: Store<T>,
    bn: nat,
    keys: Option<(T::VerifyKey, Seq<T::VerifyKey>)>,
)
    requires
        store.inv(),
        store.fits_keys(bn, keys),
    ensures
        store.finalize(bn, keys).inv(),
        store.wants_keys(bn) ==> store.finalize(bn, keys).verification_keys.is_some()
            && store.finalize(bn, keys).verification_keys.unwrap().len() == store.n_members(),
        store.finalize(bn, keys).is_correct_dealer == store.is_correct_dealer,
{
}

/// In a store that is in order, stored keys are one for each member of the
/// committee, together with the key of the committee.
pub proof fn lemma_one_key_for_each_member<T: Trait>(store: Store<T>)
    requires
        store.inv(),
        store.verification_keys.is_some(),
    ensures
        store.verification_keys.unwrap().len() == store.n_members(),
        store.master_verification_key.is_some(),
{
}

/// No submission takes anything out of the store: an encryption key, a
/// polynomial's commitments or a share that is stored stays stored.
pub proof fn lemma_nothing_is_deleted<T: Trait>(
    store: Store<T>,
    chain: Chain,
    who: DKGId,
    submission: Submission<T>,
    i: int,
    j: int,
)
    requires
        store.inv(),
        0 <= i < store.n_members(),
        0 <= j < store.n_members(),
    ensures
        store.encryption_pks[i].is_some() ==> store.apply(
            chain,
            who,
            submission,
        ).encryption_pks[i].is_some(),
        store.committed_polynomials[i].is_some() ==> store.apply(
            chain,
            who,
            submission,
        ).committed_polynomials[i].is_some(),
        store.encrypted_shares[i][j].is_some() ==> store.apply(
            chain,
            who,
            submission,
        ).encrypted_shares[i][j].is_some(),
{
}

/// Each kind of submission writes what belongs to its round and nothing
/// else: an encryption key only the encryption keys, shares only the
/// shares, the commitments and the marks of correct dealers, complaints
/// only those marks. None of them writes the keys of the committee.
pub proof fn lemma_submissions_keep_to_their_round<T: Trait>(
    store: Store<T>,
    chain: Chain,
    who: DKGId,
    submission: Submission<T>,
)
    requires
        store.inv(),
    ensures
        ({
            let after = store.apply(chain, who, submission);
            &&& after.master_verification_key == store.master_verification_key
            &&& after.verification_keys == store.verification_keys
            &&& submission is EncryptionKey ==> after == (Store {
                encryption_pks: after.encryption_pks,
                ..store
            })
            &&& submission is SecretShares ==> after == (Store {
                encrypted_shares: after.encrypted_shares,
                committed_polynomials: after.committed_polynomials,
                is_correct_dealer: after.is_correct_dealer,
                ..store
            })
            &&& submission is Disputes ==> after == (Store {
                is_correct_dealer: after.is_correct_dealer,
                ..store
            })
        }),
{
    let after = store.apply(chain, who, submission);
    match submission {
        Submission::EncryptionKey { .. } => {
            assert(after =~= (Store { encryption_pks: after.encryption_pks, ..store }));
        },
        Submission::SecretShares { .. } => {
            assert(after =~= (Store {
                encrypted_shares: after.encrypted_shares,
                committed_polynomials: after.committed_polynomials,
                is_correct_dealer: after.is_correct_dealer,
                ..store
            }));
        },
        Submission::Disputes { .. } => {
            assert(after =~= (Store { is_correct_dealer: after.is_correct_dealer, ..store }));
        },
    }
}

/// A submission made outside the round it belongs to changes nothing.
pub proof fn lemma_late_submission_changes_nothing<T: Trait>(
    store: Store<T>,
    chain: Chain,
    who: DKGId,
    submission: Submission<T>,
)
    requires
        match submission {
            Submission::EncryptionKey { .. } => !spec_in_round(
                store.dkg_ready,
                0,
                chain.block_number as nat,
            ),
            Submission::SecretShares { .. } => !spec_in_round(
                store.dkg_ready,
                1,
                chain.block_number as nat,
            ),
            Submission::Disputes { .. } => !spec_in_round(
                store.dkg_ready,
                2,
                chain.block_number as nat,
            ),
        },
    ensures
        store.apply(chain, who, submission) == store,
{
}

/// After the end of round 2, for which the host has done its part, in a
/// store that held no keys before, the keys of the committee and of the
/// members are there if and only if some dealer is qualified; and then
/// there is one key for each member.
pub proof fn lemma_keys_iff_qualified<T: Trait>(
    store: Store<T>,
    keys: Option<(T::VerifyKey, Seq<T::VerifyKey>)>,
)
    requires
        store.inv(),
        store.started(),
        store.verification_keys.is_none(),
        store.fits_keys(store.round_end(2), keys),
    ensures
        ({
            let after = store.finalize(store.round_end(2), keys);
            &&& after.verification_keys.is_some() == (store.qualified().len() > 0)
            &&& after.master_verification_key.is_some() == (store.qualified().len() > 0)
            &&& after.verification_keys matches Some(members) ==> members.len()
                == store.n_members()
        }),
{
}

/// A dealer that still counts as correct after the complaints of a
/// recipient has dealt that recipient a share that was found good.
///
/// The recipient `ix` has an encryption key stored, and `opened` holds
/// what the host found of the shares dealt to it. It complains, as round 2
/// has it, about every dealer with a stored encryption key whose share is
/// missing or was not found good, and the chain finds each of these
/// complaints made with the right key about a share that does not open.
/// Then each dealer that counts as correct afterwards has a share stored
/// for the recipient, and that share was found good.
pub proof fn lemma_surviving_dealer_dealt_good_share<T: Trait>(
    store: Store<T>,
    chain: Chain,
    who: DKGId,
    ix: AuthIndex,
    opened: Seq<Option<nat>>,
    disputes: Seq<Dispute>,
    hash_round1: BlockHash,
    dealer: int,
)
    requires
        store.inv(),
        store.accepts_disputes(chain, who, ix, hash_round1),
        store.encryption_pks[ix as int].is_some(),
        opened.len() == store.n_members(),
        forall|c: int|
            0 <= c < store.n_members() && #[trigger] spec_complains(store, ix, opened, c)
                ==> exists|k: int|
                0 <= k < disputes.len() && (#[trigger] disputes[k]).creator == c
                    && disputes[k].key_is_correct && !disputes[k].share_is_valid,
        0 <= dealer < store.n_members(),
        store.post_disputes(chain, who, ix, disputes, hash_round1).is_correct_dealer[dealer],
    ensures
        spec_keeps_share(store, ix, opened, dealer),
        store.encrypted_shares[dealer][ix as int].is_some(),
        opened[dealer].is_some(),
{
    if !spec_keeps_share(store, ix, opened, dealer) {
        assert(store.is_correct_dealer[dealer]);
        assert(store.encryption_pks[dealer].is_some());
        assert(spec_complains(store, ix, opened, dealer));
        let k = choose|k: int|
            0 <= k < disputes.len() && (#[trigger] disputes[k]).creator == dealer
                && disputes[k].key_is_correct && !disputes[k].share_is_valid;
        assert(store.refutes(ix, disputes[k], dealer));
        assert(store.disputed(ix, disputes, dealer));
    }
}

} // verus!
