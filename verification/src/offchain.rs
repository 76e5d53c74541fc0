//! What each authority does for itself in every round, next to the chain:
//! it draws its secrets, deals shares, checks the shares it was dealt and
//! adds up its share of the committee's secret. What it keeps between
//! rounds is keyed by the block that ended the round before, so that a
//! round does its work once.

use vstd::prelude::*;
use vstd::arithmetic::div_mod::lemma_small_mod;
use crate::keys::Slot;
use crate::local::{spec_raw_values, spec_share_values, LocalStore, LocalValue, SlotValue};
use crate::pallet::Module;
use crate::scalar::{
    gen_poly_coeffs, gen_raw_scalar, member_point, poly_eval, spec_bytes_value, spec_member_point,
    spec_modulus, spec_poly_eval, spec_raw_value, spec_values, RawSecret, Scalar,
};
use crate::store::Store;
use crate::types::{first_local, spec_first_local, AuthIndex, BlockHash, Chain, DKGId, Trait};

verus! {

/// What round 0 asks the host to do: derive the encryption key of
/// `secret` and submit it as the key of authority `ix`.
#[derive(Clone, Copy, Debug, PartialEq, Eq)]
pub struct Round0Plan {
    pub ix: AuthIndex,
    pub secret: RawSecret,
}

/// The plan of round 0 as mathematics.
pub struct Round0View {
    pub ix: AuthIndex,
    pub secret: nat,
}

impl View for Round0Plan {
    type V = Round0View;

    open spec fn view(&self) -> Round0View {
        Round0View { ix: self.ix, secret: spec_raw_value(self.secret) }
    }
}

/// What round 1 asks the host to do for dealer `ix`: commit to each of
/// `coefficients`; encrypt each share that is there for the recipient at
/// its position, under the key that the recipient's encryption key and
/// `encryption_secret` give; and submit both, bound to `hash_round0`.
#[derive(Clone, Debug, PartialEq, Eq)]
pub struct Round1Plan {
    pub ix: AuthIndex,
    pub encryption_secret: Scalar,
    pub coefficients: Vec<Scalar>,
    pub shares: Vec<Option<Scalar>>,
    pub hash_round0: BlockHash,
}

/// The plan of round 1 as mathematics.
pub struct Round1View {
    pub ix: AuthIndex,
    pub encryption_secret: nat,
    pub coefficients: Seq<nat>,
    pub shares: Seq<Option<nat>>,
    pub hash_round0: BlockHash,
}

/// The numbers of a sequence of scalars that may be missing.
pub open spec fn spec_opt_values(scalars: Seq<Option<Scalar>>) -> Seq<Option<nat>> {
    scalars.map_values(
        |s: Option<Scalar>|
            match s {
                Some(x) => Some(x@),
                None => None,
            },
    )
}

impl View for Round1Plan {
    type V = Round1View;

    open spec fn view(&self) -> Round1View {
        Round1View {
            ix: self.ix,
            encryption_secret: self.encryption_secret@,
            coefficients: spec_values(self.coefficients@),
            shares: spec_opt_values(self.shares@),
            hash_round0: self.hash_round0,
        }
    }
}

/// What round 2 asks the host to do for recipient `ix`: complain about
/// each of the dealers in `disputes`, presenting the key that the dealer's
/// encryption key and `encryption_secret` give, bound to `hash_round1`.
#[derive(Clone, Debug, PartialEq, Eq)]
pub struct Round2Plan {
    pub ix: AuthIndex,
    pub encryption_secret: Scalar,
    pub disputes: Vec<AuthIndex>,
    pub hash_round1: BlockHash,
}

/// The plan of round 2 as mathematics.
pub struct Round2View {
    pub ix: AuthIndex,
    pub encryption_secret: nat,
    pub disputes: Seq<AuthIndex>,
    pub hash_round1: BlockHash,
}

impl View for Round2Plan {
    type V = Round2View;

    open spec fn view(&self) -> Round2View {
        Round2View {
            ix: self.ix,
            encryption_secret: self.encryption_secret@,
            disputes: self.disputes@,
            hash_round1: self.hash_round1,
        }
    }
}

/// What a round leaves behind: what the node keeps, and what it asks the
/// host to submit, if anything.
pub struct Outcome<P> {
    pub local: Map<Seq<u8>, SlotValue>,
    pub plan: Option<P>,
}

/// The views of what a round may ask for.
pub open spec fn spec_plan_view<P: View>(plan: Option<P>) -> Option<P::V> {
    match plan {
        Some(p) => Some(p@),
        None => None,
    }
}

/// What the node has noted of which authority it is, if it has noted
/// anything.
pub open spec fn spec_noted_key_info(local: Map<Seq<u8>, SlotValue>, chain: Chain) -> Option<
    Option<(AuthIndex, DKGId)>,
> {
    let key = Slot::LocalKeyInfo.spec_key(chain);
    if local.contains_key(key) {
        match local[key] {
            SlotValue::KeyInfo(info) => Some(info),
            _ => None,
        }
    } else {
        None
    }
}

/// The first authority of the committee that one of the node's own `keys`
/// belongs to.
pub open spec fn spec_found_key_info(authorities: Seq<DKGId>, keys: Seq<DKGId>) -> Option<
    (AuthIndex, DKGId),
> {
    match spec_first_local(authorities, keys) {
        Some(i) => Some((i as AuthIndex, authorities[i])),
        None => None,
    }
}

/// Which authority the node is: what it has noted, else what its keys say.
pub open spec fn spec_local_key(
    authorities: Seq<DKGId>,
    local: Map<Seq<u8>, SlotValue>,
    chain: Chain,
    keys: Seq<DKGId>,
) -> Option<(AuthIndex, DKGId)> {
    match spec_noted_key_info(local, chain) {
        Some(info) => info,
        None => spec_found_key_info(authorities, keys),
    }
}

/// What the node keeps once it has noted which authority it is.
pub open spec fn spec_with_key_info(
    authorities: Seq<DKGId>,
    local: Map<Seq<u8>, SlotValue>,
    chain: Chain,
    keys: Seq<DKGId>,
) -> Map<Seq<u8>, SlotValue> {
    match spec_noted_key_info(local, chain) {
        Some(_) => local,
        None => local.insert(
            Slot::LocalKeyInfo.spec_key(chain),
            SlotValue::KeyInfo(spec_found_key_info(authorities, keys)),
        ),
    }
}

/// The secret of the node's encryption key, if the node keeps one.
pub open spec fn spec_enc_key(local: Map<Seq<u8>, SlotValue>, chain: Chain) -> Option<nat> {
    let key = Slot::EncKey.spec_key(chain);
    if local.contains_key(key) {
        match local[key] {
            SlotValue::EncKey(secret) => Some(secret),
            _ => None,
        }
    } else {
        None
    }
}

/// Whether the node keeps a polynomial for this run.
pub open spec fn spec_has_secret_poly(local: Map<Seq<u8>, SlotValue>, chain: Chain) -> bool {
    let key = Slot::SecretPoly.spec_key(chain);
    local.contains_key(key) && local[key] is SecretPoly
}

/// The shares that the node keeps for this run, if it keeps any.
pub open spec fn spec_secret_shares(local: Map<Seq<u8>, SlotValue>, chain: Chain) -> Option<
    Seq<Option<nat>>,
> {
    let key = Slot::SecretShares.spec_key(chain);
    if local.contains_key(key) {
        match local[key] {
            SlotValue::SecretShares(shares) => Some(shares),
            _ => None,
        }
    } else {
        None
    }
}

/// Whether the node keeps a share of the committee's secret for this run.
pub open spec fn spec_has_threshold_key(local: Map<Seq<u8>, SlotValue>, chain: Chain) -> bool {
    let key = Slot::ThresholdSecretKey.spec_key(chain);
    local.contains_key(key) && local[key] is ThresholdSecretKey
}

/// What round 0 does, given the 32 random bytes `seed`.
///
/// The node notes which authority it is. If it is none, or keeps an
/// encryption secret already, nothing more happens. Else it keeps the
/// number of the seed as its secret, and, if it can sign, asks for the
/// key of that secret to be submitted.
pub open spec fn spec_round0(
    authorities: Seq<DKGId>,
    local: Map<Seq<u8>, SlotValue>,
    chain: Chain,
    keys: Seq<DKGId>,
    can_sign: bool,
    seed: [u8; 32],
) -> Outcome<Round0View> {
    let noted = spec_with_key_info(authorities, local, chain, keys);
    match spec_local_key(authorities, local, chain, keys) {
        None => Outcome { local: noted, plan: None },
        Some(me) => if spec_enc_key(noted, chain).is_some() {
            Outcome { local: noted, plan: None }
        } else {
            let secret = spec_bytes_value(seed@);
            let kept = noted.insert(Slot::EncKey.spec_key(chain), SlotValue::EncKey(secret));
            if can_sign {
                Outcome { local: kept, plan: Some(Round0View { ix: me.0, secret }) }
            } else {
                Outcome { local: kept, plan: None }
            }
        },
    }
}

/// The numbers of `raws`, each reduced to the field.
pub open spec fn spec_reduced(raws: Seq<nat>) -> Seq<nat> {
    raws.map_values(|raw: nat| raw % spec_modulus())
}

/// The share for each member of the committee: the value at the member's
/// point of the polynomial with `coefficients`, for the members whose
/// encryption key is stored.
pub open spec fn spec_dealt_shares<T: Trait>(store: Store<T>, coefficients: Seq<nat>) -> Seq<
    Option<nat>,
> {
    Seq::new(
        store.n_members(),
        |j: int|
            if store.encryption_pks[j].is_some() {
                Some(spec_poly_eval(coefficients, spec_member_point(j as nat)))
            } else {
                None
            },
    )
}

/// What round 1 does, given one run of 32 random bytes for each
/// coefficient.
///
/// The node notes which authority it is. If it is none, the key
/// generation has not started, it keeps a polynomial for this run
/// already, or the seeds are not as many as the threshold, nothing more
/// happens. Else it keeps the numbers of the seeds as the coefficients of
/// its polynomial. If it also keeps an encryption secret and can sign, it
/// asks for the shares and commitments to be submitted.
pub open spec fn spec_round1<T: Trait>(
    store: Store<T>,
    local: Map<Seq<u8>, SlotValue>,
    chain: Chain,
    keys: Seq<DKGId>,
    can_sign: bool,
    seeds: Seq<[u8; 32]>,
) -> Outcome<Round1View> {
    let noted = spec_with_key_info(store.authorities, local, chain, keys);
    match spec_local_key(store.authorities, local, chain, keys) {
        None => Outcome { local: noted, plan: None },
        Some(me) => if !store.started() || spec_has_secret_poly(noted, chain) || seeds.len()
            != store.threshold {
            Outcome { local: noted, plan: None }
        } else {
            let raws = seeds.map_values(|seed: [u8; 32]| spec_bytes_value(seed@));
            let kept = noted.insert(Slot::SecretPoly.spec_key(chain), SlotValue::SecretPoly(raws));
            match spec_enc_key(kept, chain) {
                Some(secret) => if can_sign {
                    Outcome {
                        local: kept,
                        plan: Some(
                            Round1View {
                                ix: me.0,
                                encryption_secret: secret % spec_modulus(),
                                coefficients: spec_reduced(raws),
                                shares: spec_dealt_shares(store, spec_reduced(raws)),
                                hash_round0: chain.hash_round0,
                            },
                        ),
                    }
                } else {
                    Outcome { local: kept, plan: None }
                },
                None => Outcome { local: kept, plan: None },
            }
        },
    }
}

/// Whether dealer `creator` has dealt recipient `ix` a share.
pub open spec fn spec_has_share<T: Trait>(store: Store<T>, creator: int, ix: AuthIndex) -> bool {
    &&& 0 <= creator < store.n_members()
    &&& ix < store.n_members()
    &&& store.encrypted_shares[creator][ix as int].is_some()
}

/// Whether recipient `ix` keeps the share of dealer `creator`: the
/// dealer's encryption key is stored, it has dealt the recipient a share,
/// and the host found that the share opens the dealer's commitment.
pub open spec fn spec_keeps_share<T: Trait>(
    store: Store<T>,
    ix: AuthIndex,
    opened: Seq<Option<nat>>,
    creator: int,
) -> bool {
    &&& store.encryption_pks[creator].is_some()
    &&& spec_has_share(store, creator, ix)
    &&& opened[creator].is_some()
}

/// Whether recipient `ix` complains about dealer `creator`: the dealer's
/// encryption key is stored, and its share is missing or does not open
/// its commitment.
pub open spec fn spec_complains<T: Trait>(
    store: Store<T>,
    ix: AuthIndex,
    opened: Seq<Option<nat>>,
    creator: int,
) -> bool {
    &&& store.encryption_pks[creator].is_some()
    &&& !(spec_has_share(store, creator, ix) && opened[creator].is_some())
}

/// The dealers among the first `n` about which recipient `ix` complains,
/// in rising order.
pub open spec fn spec_complaints<T: Trait>(
    store: Store<T>,
    ix: AuthIndex,
    opened: Seq<Option<nat>>,
    n: nat,
) -> Seq<AuthIndex>
    decreases n,
{
    if n == 0 {
        Seq::empty()
    } else if spec_complains(store, ix, opened, n - 1) {
        spec_complaints(store, ix, opened, (n - 1) as nat).push((n - 1) as AuthIndex)
    } else {
        spec_complaints(store, ix, opened, (n - 1) as nat)
    }
}

/// The shares that recipient `ix` keeps, one place for each dealer.
pub open spec fn spec_kept_shares<T: Trait>(
    store: Store<T>,
    ix: AuthIndex,
    opened: Seq<Option<nat>>,
) -> Seq<Option<nat>> {
    Seq::new(
        store.n_members(),
        |creator: int|
            if spec_keeps_share(store, ix, opened, creator) {
                opened[creator]
            } else {
                None
            },
    )
}

/// What round 2 does, given for each dealer the share that the host
/// decrypted and found to open the dealer's commitment, if it did.
///
/// With other than one place for each member in `opened`, nothing
/// happens. Else the node notes which authority it is. If it is none, or
/// keeps shares for this run already, nothing more happens. Else it marks
/// the run as begun; and if it keeps an encryption secret, it keeps the
/// good shares, and, if it can sign, asks for its complaints to be
/// submitted.
pub open spec fn spec_round2<T: Trait>(
    store: Store<T>,
    local: Map<Seq<u8>, SlotValue>,
    chain: Chain,
    keys: Seq<DKGId>,
    can_sign: bool,
    opened: Seq<Option<nat>>,
) -> Outcome<Round2View> {
    if opened.len() != store.n_members() {
        Outcome { local, plan: None }
    } else {
        let noted = spec_with_key_info(store.authorities, local, chain, keys);
        match spec_local_key(store.authorities, local, chain, keys) {
            None => Outcome { local: noted, plan: None },
            Some(me) => if spec_secret_shares(noted, chain).is_some() {
                Outcome { local: noted, plan: None }
            } else {
                let key = Slot::SecretShares.spec_key(chain);
                let begun = noted.insert(key, SlotValue::SecretShares(Seq::empty()));
                match spec_enc_key(begun, chain) {
                    None => Outcome { local: begun, plan: None },
                    Some(secret) => {
                        let kept = begun.insert(
                            key,
                            SlotValue::SecretShares(spec_kept_shares(store, me.0, opened)),
                        );
                        if can_sign {
                            Outcome {
                                local: kept,
                                plan: Some(
                                    Round2View {
                                        ix: me.0,
                                        encryption_secret: secret % spec_modulus(),
                                        disputes: spec_complaints(
                                            store,
                                            me.0,
                                            opened,
                                            store.n_members(),
                                        ),
                                        hash_round1: chain.hash_round1,
                                    },
                                ),
                            }
                        } else {
                            Outcome { local: kept, plan: None }
                        }
                    },
                }
            },
        }
    }
}

/// Whether the share at position `i` counts for the node's share of the
/// committee's secret: its dealer counts as correct, and the share is
/// there.
pub open spec fn spec_counts(qualified: Seq<bool>, shares: Seq<Option<nat>>, i: int) -> bool {
    &&& 0 <= i < shares.len()
    &&& i < qualified.len()
    &&& qualified[i]
    &&& shares[i].is_some()
}

/// Whether every share among the first `n` that counts is the number of a
/// scalar.
pub open spec fn spec_shares_sound(qualified: Seq<bool>, shares: Seq<Option<nat>>, n: nat) -> bool {
    forall|i: int|
        0 <= i < n && spec_counts(qualified, shares, i) ==> (#[trigger] shares[i]).unwrap()
            < spec_modulus()
}

/// The sum in the field of the shares among the first `n` that count.
pub open spec fn spec_share_sum(qualified: Seq<bool>, shares: Seq<Option<nat>>, n: nat) -> nat
    decreases n,
{
    if n == 0 {
        0
    } else if spec_counts(qualified, shares, n - 1) {
        (spec_share_sum(qualified, shares, (n - 1) as nat) + shares[n - 1].unwrap())
            % spec_modulus()
    } else {
        spec_share_sum(qualified, shares, (n - 1) as nat)
    }
}

/// What the node keeps after round 3.
///
/// The node notes which authority it is. If it is none, or keeps a share
/// of the secret for this run already, nothing more happens. Else it
/// marks the run as begun, with zero. If it keeps the shares of round 2,
/// no more of them than there are members, and each that counts is the
/// number of a scalar, it keeps the sum of those that count.
pub open spec fn spec_round3<T: Trait>(
    store: Store<T>,
    local: Map<Seq<u8>, SlotValue>,
    chain: Chain,
    keys: Seq<DKGId>,
) -> Map<Seq<u8>, SlotValue> {
    let noted = spec_with_key_info(store.authorities, local, chain, keys);
    match spec_local_key(store.authorities, local, chain, keys) {
        None => noted,
        Some(me) => if spec_has_threshold_key(noted, chain) {
            noted
        } else {
            let key = Slot::ThresholdSecretKey.spec_key(chain);
            let begun = noted.insert(key, SlotValue::ThresholdSecretKey(0));
            if spec_round3_sums(store, begun, chain) {
                let shares = spec_secret_shares(begun, chain).unwrap();
                begun.insert(
                    key,
                    SlotValue::ThresholdSecretKey(
                        spec_share_sum(store.is_correct_dealer, shares, shares.len()),
                    ),
                )
            } else {
                begun
            }
        },
    }
}

/// Whether what the node keeps lets round 3 add up its share of the
/// secret.
pub open spec fn spec_round3_sums<T: Trait>(
    store: Store<T>,
    local: Map<Seq<u8>, SlotValue>,
    chain: Chain,
) -> bool {
    match spec_secret_shares(local, chain) {
        Some(shares) => shares.len() <= store.n_members() && spec_shares_sound(
            store.is_correct_dealer,
            shares,
            shares.len(),
        ),
        None => false,
    }
}

/// Whether round 3 keeps the node's share of the secret.
pub open spec fn spec_round3_done<T: Trait>(
    store: Store<T>,
    local: Map<Seq<u8>, SlotValue>,
    chain: Chain,
    keys: Seq<DKGId>,
) -> bool {
    let noted = spec_with_key_info(store.authorities, local, chain, keys);
    &&& spec_local_key(store.authorities, local, chain, keys).is_some()
    &&& !spec_has_threshold_key(noted, chain)
    &&& spec_round3_sums(
        store,
        noted.insert(Slot::ThresholdSecretKey.spec_key(chain), SlotValue::ThresholdSecretKey(0)),
        chain,
    )
}

/// The round that the node works on at block `block_number`: the first
/// round whose deadline lies after the block, if there is one.
pub open spec fn spec_offchain_round<T: Trait>(store: Store<T>, block_number: nat) -> Option<nat> {
    if block_number < store.round_end(0) {
        Some(0nat)
    } else if block_number < store.round_end(1) {
        Some(1nat)
    } else if block_number < store.round_end(2) {
        Some(2nat)
    } else if block_number < store.round_end(3) {
        Some(3nat)
    } else {
        None
    }
}

/// The five slots have five different keys.
pub proof fn lemma_keys_differ(chain: Chain)
    ensures
        Slot::LocalKeyInfo.spec_key(chain).len() == 19,
        Slot::EncKey.spec_key(chain).len() == 12,
        Slot::SecretPoly.spec_key(chain).len() == 48,
        Slot::SecretShares.spec_key(chain).len() == 50,
        Slot::ThresholdSecretKey.spec_key(chain).len() == 57,
{
}

/// Round 0 does its work once: run again on what the first run left,
/// with whatever keys, signer and seed, it keeps what is kept and asks for
/// nothing.
pub proof fn lemma_round0_once(
    authorities: Seq<DKGId>,
    local: Map<Seq<u8>, SlotValue>,
    chain: Chain,
    keys: Seq<DKGId>,
    can_sign: bool,
    seed: [u8; 32],
    keys_again: Seq<DKGId>,
    can_sign_again: bool,
    seed_again: [u8; 32],
)
    ensures
        ({
            let first = spec_round0(authorities, local, chain, keys, can_sign, seed);
            let second = spec_round0(
                authorities,
                first.local,
                chain,
                keys_again,
                can_sign_again,
                seed_again,
            );
            second.local == first.local && second.plan.is_none()
        }),
{
    lemma_keys_differ(chain);
    let first = spec_round0(authorities, local, chain, keys, can_sign, seed);
    let second = spec_round0(
        authorities,
        first.local,
        chain,
        keys_again,
        can_sign_again,
        seed_again,
    );
    assert(spec_noted_key_info(first.local, chain).is_some());
    assert(second.local =~= first.local);
}

/// Round 1 does its work once: run again on what the first run left, for
/// the same store and with as many seeds, it keeps what is kept and asks
/// for nothing.
pub proof fn lemma_round1_once<T: Trait>(
    store: Store<T>,
    local: Map<Seq<u8>, SlotValue>,
    chain: Chain,
    keys: Seq<DKGId>,
    can_sign: bool,
    seeds: Seq<[u8; 32]>,
    keys_again: Seq<DKGId>,
    can_sign_again: bool,
    seeds_again: Seq<[u8; 32]>,
)
    requires
        seeds_again.len() == seeds.len(),
    ensures
        ({
            let first = spec_round1(store, local, chain, keys, can_sign, seeds);
            let second = spec_round1(
                store,
                first.local,
                chain,
                keys_again,
                can_sign_again,
                seeds_again,
            );
            second.local == first.local && second.plan.is_none()
        }),
{
    lemma_keys_differ(chain);
    let first = spec_round1(store, local, chain, keys, can_sign, seeds);
    let second = spec_round1(store, first.local, chain, keys_again, can_sign_again, seeds_again);
    assert(spec_noted_key_info(first.local, chain).is_some());
    assert(second.local =~= first.local);
}

/// Round 2 does its work once: run again on what the first run left, for
/// the same store and with as many places for opened shares, it keeps
/// what is kept and asks for nothing.
pub proof fn lemma_round2_once<T: Trait>(
    store: Store<T>,
    local: Map<Seq<u8>, SlotValue>,
    chain: Chain,
    keys: Seq<DKGId>,
    can_sign: bool,
    opened: Seq<Option<nat>>,
    keys_again: Seq<DKGId>,
    can_sign_again: bool,
    opened_again: Seq<Option<nat>>,
)
    requires
        opened_again.len() == opened.len(),
    ensures
        ({
            let first = spec_round2(store, local, chain, keys, can_sign, opened);
            let second = spec_round2(
                store,
                first.local,
                chain,
                keys_again,
                can_sign_again,
                opened_again,
            );
            second.local == first.local && second.plan.is_none()
        }),
{
    lemma_keys_differ(chain);
    let first = spec_round2(store, local, chain, keys, can_sign, opened);
    let second = spec_round2(store, first.local, chain, keys_again, can_sign_again, opened_again);
    if opened.len() == store.n_members() {
        assert(spec_noted_key_info(first.local, chain).is_some());
    }
    assert(second.local =~= first.local);
}

/// Round 3 does its work once: run again on what the first run left,
/// whatever the store holds by then, it keeps what is kept and adds up
/// nothing.
pub proof fn lemma_round3_once<T: Trait>(
    store: Store<T>,
    local: Map<Seq<u8>, SlotValue>,
    chain: Chain,
    keys: Seq<DKGId>,
    store_again: Store<T>,
    keys_again: Seq<DKGId>,
)
    requires
        store_again.authorities == store.authorities,
    ensures
        ({
            let first = spec_round3(store, local, chain, keys);
            spec_round3(store_again, first, chain, keys_again) == first && !spec_round3_done(
                store_again,
                first,
                chain,
                keys_again,
            )
        }),
{
    lemma_keys_differ(chain);
    let first = spec_round3(store, local, chain, keys);
    assert(spec_noted_key_info(first, chain).is_some());
    assert(spec_round3(store_again, first, chain, keys_again) =~= first);
}

/// Adds up in the field the shares that count; none if one of them is not
/// the number of a scalar.
fn sum_shares(qualified: &Vec<bool>, shares: &Vec<Option<[u8; 32]>>) -> (sum: Option<Scalar>)
    requires
        shares.len() <= qualified.len(),
    ensures
        sum.is_some() == spec_shares_sound(
            qualified@,
            spec_share_values(shares@),
            shares.len() as nat,
        ),
        sum matches Some(s) ==> s@ == spec_share_sum(
            qualified@,
            spec_share_values(shares@),
            shares.len() as nat,
        ),
{
    let ghost values = spec_share_values(shares@);
    let mut secret: Scalar = Scalar::zero();
    let mut ix: usize = 0;
    while ix < shares.len()
        invariant
            ix <= shares.len(),
            shares.len() <= qualified.len(),
            values == spec_share_values(shares@),
            spec_shares_sound(qualified@, values, ix as nat),
            secret@ == spec_share_sum(qualified@, values, ix as nat),
        decreases shares.len() - ix,
    {
        let ghost sum_before = secret@;
        let ghost mut number: Option<nat> = None;
        if qualified[ix] {
            match &shares[ix] {
                Some(bytes) => {
                    proof {
                        number = Some(spec_bytes_value(bytes@));
                    }
                    match Scalar::from_bytes(bytes) {
                        Some(share) => {
                            secret = secret.plus(&share);
                        },
                        None => {
                            proof {
                                assert(values[ix as int] == number);
                                assert(spec_counts(qualified@, values, ix as int));
                            }
                            return None;
                        },
                    }
                },
                None => {},
            }
        }
        proof {
            assert(values[ix as int] == spec_share_values(shares@)[ix as int]);
            if spec_counts(qualified@, values, ix as int) {
                assert(values[ix as int] == number);
                assert(number.unwrap() < spec_modulus());
                assert(secret@ == (sum_before + number.unwrap()) % spec_modulus());
            } else {
                assert(secret@ == sum_before);
            }
            assert(spec_shares_sound(qualified@, values, (ix + 1) as nat)) by {
                assert forall|i: int|
                    0 <= i < ix + 1 && spec_counts(qualified@, values, i) implies (
                #[trigger] values[i]).unwrap() < spec_modulus() by {
                    if i < ix {
                        assert(spec_shares_sound(qualified@, values, ix as nat));
                    }
                }
            }
        }
        ix = ix + 1;
    }
    Some(secret)
}

impl<T: Trait> Module<T> {
    /// Finds which authority the node is: the first of the committee that
    /// one of the node's own keys `local_keys` belongs to. The answer is
    /// noted the first time and read back from then on.
    pub fn local_authority_key(
        &self,
        store: &mut LocalStore,
        chain: &Chain,
        local_keys: &Vec<DKGId>,
    ) -> (me: Option<(AuthIndex, DKGId)>)
        requires
            self.wf(),
        ensures
            me == spec_local_key(self@.authorities, old(store)@, *chain, local_keys@),
            final(store)@ == spec_with_key_info(
                self@.authorities,
                old(store)@,
                *chain,
                local_keys@,
            ),
    {
        let st_key = Slot::LocalKeyInfo.key(chain);
        match store.get(&st_key) {
            Some(LocalValue::KeyInfo(info)) => {
                return *info;
            },
            _ => {},
        }
        let authorities = self.authorities();
        let key_info: Option<(AuthIndex, DKGId)> = match first_local(authorities, local_keys) {
            Some(i) => Some((i as u64, authorities[i])),
            None => None,
        };
        store.set(st_key, LocalValue::KeyInfo(key_info));
        key_info
    }

    /// Round 0: the node draws the secret of its share encryption key from
    /// the 32 random bytes `seed`, keeps it, and asks for its public half
    /// to be submitted. The round does its work once: a node that keeps a
    /// secret already asks for nothing and changes nothing.
    pub fn handle_round0(
        &self,
        store: &mut LocalStore,
        chain: &Chain,
        local_keys: &Vec<DKGId>,
        can_sign: bool,
        seed: [u8; 32],
    ) -> (plan: Option<Round0Plan>)
        requires
            self.wf(),
        ensures
            final(store)@ == spec_round0(
                self@.authorities,
                old(store)@,
                *chain,
                local_keys@,
                can_sign,
                seed,
            ).local,
            spec_plan_view(plan) == spec_round0(
                self@.authorities,
                old(store)@,
                *chain,
                local_keys@,
                can_sign,
                seed,
            ).plan,
    {
        let (ix, _auth) = match self.local_authority_key(store, chain, local_keys) {
            Some(ia) => ia,
            None => {
                return None;
            },
        };
        let st_key = Slot::EncKey.key(chain);
        match store.get(&st_key) {
            Some(LocalValue::EncKey(_)) => {
                return None;
            },
            _ => {},
        }
        let raw_scalar: RawSecret = gen_raw_scalar(seed);
        store.set(st_key, LocalValue::EncKey(raw_scalar));
        if !can_sign {
            return None;
        }
        Some(Round0Plan { ix, secret: raw_scalar })
    }

    /// Tells which round the node works on at block `block_number`.
    pub fn offchain_round(&self, block_number: u64) -> (round: Option<usize>)
        ensures
            match round {
                Some(r) => spec_offchain_round(self@, block_number as nat) == Some(r as nat),
                None => spec_offchain_round(self@, block_number as nat).is_none(),
            },
    {
        if block_number < self.round_end(0) {
            Some(0)
        } else if block_number < self.round_end(1) {
            Some(1)
        } else if block_number < self.round_end(2) {
            Some(2)
        } else if block_number < self.round_end(3) {
            Some(3)
        } else {
            None
        }
    }

    /// Reads the secret of the node's encryption key as a scalar, if the
    /// node keeps one.
    fn encryption_secret(store: &LocalStore, chain: &Chain) -> (secret: Option<Scalar>)
        ensures
            secret.is_some() == spec_enc_key(store@, *chain).is_some(),
            secret matches Some(s) ==> s@ == spec_enc_key(store@, *chain).unwrap() % spec_modulus(),
    {
        let st_key = Slot::EncKey.key(chain);
        match store.get(&st_key) {
            Some(LocalValue::EncKey(raw)) => Some(Scalar::from_raw(*raw)),
            _ => None,
        }
    }

    /// Round 1: the node draws its polynomial, one coefficient from each
    /// run of 32 random bytes in `seeds`, keeps it, and asks for a share
    /// for each member whose encryption key is stored, and for the
    /// commitments to the coefficients, to be submitted. The round does its
    /// work once.
    pub fn handle_round1(
        &self,
        store: &mut LocalStore,
        chain: &Chain,
        local_keys: &Vec<DKGId>,
        can_sign: bool,
        seeds: &Vec<[u8; 32]>,
    ) -> (plan: Option<Round1Plan>)
        requires
            self.wf(),
        ensures
            final(store)@ == spec_round1(
                self@,
                old(store)@,
                *chain,
                local_keys@,
                can_sign,
                seeds@,
            ).local,
            spec_plan_view(plan) == spec_round1(
                self@,
                old(store)@,
                *chain,
                local_keys@,
                can_sign,
                seeds@,
            ).plan,
    {
        let (ix, _auth) = match self.local_authority_key(store, chain, local_keys) {
            Some(ia) => ia,
            None => {
                return None;
            },
        };
        let threshold: u64 = self.threshold();
        if threshold == 0 {
            return None;
        }
        let n_members: usize = self.n_members();
        let st_key = Slot::SecretPoly.key(chain);
        match store.get(&st_key) {
            Some(LocalValue::SecretPoly(_)) => {
                return None;
            },
            _ => {},
        }
        if seeds.len() as u64 != threshold {
            return None;
        }
        let ghost raws = seeds@.map_values(|seed: [u8; 32]| spec_bytes_value(seed@));
        let coeffs: Vec<RawSecret> = gen_poly_coeffs(seeds);
        let mut poly: Vec<Scalar> = Vec::new();
        let mut k: usize = 0;
        while k < coeffs.len()
            invariant
                k <= coeffs.len(),
                poly.len() == k,
                forall|m: int|
                    0 <= m < k ==> (#[trigger] poly[m])@ == spec_raw_value(coeffs[m])
                        % spec_modulus(),
            decreases coeffs.len() - k,
        {
            poly.push(Scalar::from_raw(coeffs[k]));
            k = k + 1;
        }
        proof {
            assert(spec_raw_values(coeffs@) =~= raws);
            assert(spec_values(poly@) =~= spec_reduced(raws));
        }
        store.set(st_key, LocalValue::SecretPoly(coeffs));
        let encryption_secret: Scalar = match Self::encryption_secret(store, chain) {
            Some(secret) => secret,
            None => {
                return None;
            },
        };
        let mut shares: Vec<Option<Scalar>> = Vec::new();
        let mut j: usize = 0;
        while j < n_members
            invariant
                j <= n_members,
                n_members == self@.n_members(),
                self.wf(),
                shares.len() == j,
                forall|m: int|
                    0 <= m < j ==> spec_opt_values(shares@)[m] == #[trigger] spec_dealt_shares(
                        self@,
                        spec_values(poly@),
                    )[m],
            decreases n_members - j,
        {
            let ghost before = shares@;
            if self.encryption_pk(j as u64).is_some() {
                let x: Scalar = member_point(j as u64);
                let share: Scalar = poly_eval(&poly, &x);
                shares.push(Some(share));
            } else {
                shares.push(None);
            }
            proof {
                assert forall|m: int| 0 <= m < j + 1 implies spec_opt_values(shares@)[m]
                    == #[trigger] spec_dealt_shares(self@, spec_values(poly@))[m] by {
                    if m < j {
                        assert(shares@[m] == before[m]);
                        assert(spec_opt_values(before)[m] == spec_dealt_shares(
                            self@,
                            spec_values(poly@),
                        )[m]);
                    }
                }
            }
            j = j + 1;
        }
        proof {
            assert(spec_opt_values(shares@) =~= spec_dealt_shares(self@, spec_values(poly@)));
        }
        if !can_sign {
            return None;
        }
        Some(
            Round1Plan {
                ix,
                encryption_secret,
                coefficients: poly,
                shares,
                hash_round0: chain.hash_round0,
            },
        )
    }

    /// Round 2: the node sorts the shares it was dealt. `opened` holds,
    /// for each dealer, the share that the host decrypted with the shared
    /// key and found to open the dealer's commitment for this node, or
    /// nothing where there is no share, it does not decrypt, or it does
    /// not open the commitment. The node keeps the good shares, and asks
    /// for a complaint about each dealer with a stored encryption key
    /// whose share is missing or bad to be submitted. The round does its
    /// work once.
    pub fn handle_round2(
        &self,
        store: &mut LocalStore,
        chain: &Chain,
        local_keys: &Vec<DKGId>,
        can_sign: bool,
        opened: &Vec<Option<Scalar>>,
    ) -> (plan: Option<Round2Plan>)
        requires
            self.wf(),
        ensures
            final(store)@ == spec_round2(
                self@,
                old(store)@,
                *chain,
                local_keys@,
                can_sign,
                spec_opt_values(opened@),
            ).local,
            spec_plan_view(plan) == spec_round2(
                self@,
                old(store)@,
                *chain,
                local_keys@,
                can_sign,
                spec_opt_values(opened@),
            ).plan,
    {
        let n_members: usize = self.n_members();
        if opened.len() != n_members {
            return None;
        }
        let (my_ix, _auth) = match self.local_authority_key(store, chain, local_keys) {
            Some(ia) => ia,
            None => {
                return None;
            },
        };
        let st_key = Slot::SecretShares.key(chain);
        match store.get(&st_key) {
            Some(LocalValue::SecretShares(_)) => {
                return None;
            },
            _ => {},
        }
        let marker: Vec<Option<[u8; 32]>> = Vec::new();
        assert(spec_share_values(marker@) =~= Seq::<Option<nat>>::empty());
        store.set(st_key, LocalValue::SecretShares(marker));
        let encryption_secret: Scalar = match Self::encryption_secret(store, chain) {
            Some(secret) => secret,
            None => {
                return None;
            },
        };
        let ghost found = spec_opt_values(opened@);
        let mut shares: Vec<Option<[u8; 32]>> = Vec::new();
        let mut disputes: Vec<AuthIndex> = Vec::new();
        let mut creator: usize = 0;
        while creator < n_members
            invariant
                creator <= n_members,
                n_members == self@.n_members(),
                opened.len() == n_members,
                found == spec_opt_values(opened@),
                self.wf(),
                shares.len() == creator,
                forall|c: int|
                    0 <= c < creator ==> spec_share_values(shares@)[c] == #[trigger] spec_kept_shares(
                        self@,
                        my_ix,
                        found,
                    )[c],
                disputes@ == spec_complaints(self@, my_ix, found, creator as nat),
            decreases n_members - creator,
        {
            let ghost before = shares@;
            let has_key: bool = self.encryption_pk(creator as u64).is_some();
            let dealt: bool = self.encrypted_share(creator as u64, my_ix).is_some();
            assert(dealt == spec_has_share(self@, creator as int, my_ix));
            assert(found[creator as int].is_some() == opened@[creator as int].is_some());
            if !has_key {
                shares.push(None);
            } else if !dealt {
                disputes.push(creator as u64);
                shares.push(None);
            } else {
                match &opened[creator] {
                    Some(share) => {
                        shares.push(Some(share.to_bytes()));
                    },
                    None => {
                        disputes.push(creator as u64);
                        shares.push(None);
                    },
                }
            }
            proof {
                assert forall|c: int| 0 <= c < creator + 1 implies spec_share_values(shares@)[c]
                    == #[trigger] spec_kept_shares(self@, my_ix, found)[c] by {
                    if c < creator {
                        assert(shares@[c] == before[c]);
                        assert(spec_share_values(before)[c] == spec_kept_shares(
                            self@,
                            my_ix,
                            found,
                        )[c]);
                    }
                }
            }
            creator = creator + 1;
        }
        proof {
            assert(spec_share_values(shares@) =~= spec_kept_shares(self@, my_ix, found));
        }
        let st_key = Slot::SecretShares.key(chain);
        store.set(st_key, LocalValue::SecretShares(shares));
        if !can_sign {
            return None;
        }
        Some(Round2Plan { ix: my_ix, encryption_secret, disputes, hash_round1: chain.hash_round1 })
    }

    /// Round 3: the node adds up, in the field, the shares it keeps from
    /// the dealers that count as correct, and keeps the sum as its share
    /// of the committee's secret. Tells whether the sum was kept. The
    /// round does its work once.
    pub fn handle_round3(&self, store: &mut LocalStore, chain: &Chain, local_keys: &Vec<DKGId>) -> (done:
        bool)
        requires
            self.wf(),
        ensures
            final(store)@ == spec_round3(self@, old(store)@, *chain, local_keys@),
            done == spec_round3_done(self@, old(store)@, *chain, local_keys@),
    {
        match self.local_authority_key(store, chain, local_keys) {
            Some(_) => {},
            None => {
                return false;
            },
        }
        let qualified: Vec<bool> = self.is_correct_dealer();
        let st_key_secret_key = Slot::ThresholdSecretKey.key(chain);
        match store.get(&st_key_secret_key) {
            Some(LocalValue::ThresholdSecretKey(_)) => {
                return false;
            },
            _ => {},
        }
        let zero: [u8; 32] = Scalar::zero().to_bytes();
        store.set(st_key_secret_key, LocalValue::ThresholdSecretKey(zero));
        let ghost begun = store@;
        let st_key_secret_shares = Slot::SecretShares.key(chain);
        let secret: Scalar = match store.get(&st_key_secret_shares) {
            Some(LocalValue::SecretShares(shares)) => {
                assert(spec_secret_shares(begun, *chain) == Some(spec_share_values(shares@)));
                if shares.len() > qualified.len() {
                    return false;
                }
                match sum_shares(&qualified, shares) {
                    Some(sum) => sum,
                    None => {
                        return false;
                    },
                }
            },
            _ => {
                return false;
            },
        };
        let st_key_secret_key = Slot::ThresholdSecretKey.key(chain);
        store.set(st_key_secret_key, LocalValue::ThresholdSecretKey(secret.to_bytes()));
        true
    }

    /// The key under which a node keeps its share of the committee's
    /// secret, once round 2 is over.
    pub fn storage_key_sk(&self, chain: &Chain) -> (key: Option<Vec<u8>>)
        ensures
            key.is_some() == (chain.block_number > self@.round_end(2)),
            key matches Some(k) ==> k@ == Slot::ThresholdSecretKey.spec_key(*chain),
    {
        let now: u64 = chain.block_number;
        let deadline_round_2: u64 = self.round_end(2);
        if now <= deadline_round_2 {
            return None;
        }
        Some(Slot::ThresholdSecretKey.key(chain))
    }
}

} // verus!
