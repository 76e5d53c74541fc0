use pallet_dkg::keys::{build_storage_key, Slot};
use pallet_dkg::local::{same_key, LocalStore, LocalValue};
use pallet_dkg::offchain::{Round0Plan, Round1Plan, Round2Plan};
use pallet_dkg::pallet::Module;
use pallet_dkg::scalar::{u8_array_to_raw_scalar, Scalar};
use pallet_dkg::types::{Chain, DKGId, Event, Trait};

struct Plain;

impl Trait for Plain {
    type EncryptionPublicKey = u64;
    type Commitment = u64;
    type EncryptedShare = u64;
    type VerifyKey = u64;
}

fn id(tag: u8) -> DKGId {
    DKGId([tag; 32])
}

fn seed(tag: u8) -> [u8; 32] {
    let mut bytes = [0u8; 32];
    bytes[0] = tag;
    bytes
}

fn chain_at(block_number: u64) -> Chain {
    Chain {
        block_number,
        hash_round0: [10; 32],
        hash_round1: [11; 32],
        hash_round2: [12; 32],
        hash_round3: [13; 32],
    }
}

fn other_run_at(block_number: u64) -> Chain {
    Chain {
        block_number,
        hash_round0: [20; 32],
        hash_round1: [21; 32],
        hash_round2: [22; 32],
        hash_round3: [23; 32],
    }
}

/// Three members with ids 1..3, threshold 2, ready at block 100; members 0
/// and 2 have published encryption keys.
fn module() -> Module<Plain> {
    let mut module: Module<Plain> = Module::new(100);
    module.init_store(&vec![id(1), id(2), id(3)]);
    assert_eq!(module.set_threshold(2), Event::StartDKG(3, 2));
    module.post_encryption_key(&chain_at(5), &id(1), 0, 100);
    module.post_encryption_key(&chain_at(5), &id(3), 2, 102);
    module
}

fn key_of(text: &str, hash: Option<u8>) -> Vec<u8> {
    let mut key = b"dkw::".to_vec();
    key.extend_from_slice(text.as_bytes());
    if let Some(tag) = hash {
        key.extend_from_slice(&[tag; 32]);
    }
    key
}

#[test]
fn build_storage_key_without_hash_in_round_0() {
    assert_eq!(build_storage_key(b"enc_key", 0, &chain_at(1)), b"dkw::enc_key".to_vec());
    assert_eq!(build_storage_key(b"", 0, &chain_at(1)), b"dkw::".to_vec());
}

#[test]
fn build_storage_key_appends_the_hash_of_the_round_before() {
    assert_eq!(build_storage_key(b"secret_poly", 1, &chain_at(1)), key_of("secret_poly", Some(10)));
    assert_eq!(build_storage_key(b"x", 2, &chain_at(1)), key_of("x", Some(11)));
    assert_eq!(build_storage_key(b"x", 3, &chain_at(1)), key_of("x", Some(12)));
    assert_eq!(build_storage_key(b"x", 4, &chain_at(1)), key_of("x", Some(13)));
    assert_eq!(build_storage_key(b"x", 9, &chain_at(1)), key_of("x", Some(13)));
    let mut mixed = [0u8; 32];
    let mut i = 0;
    while i < 32 {
        mixed[i] = (7 * i + 1) as u8;
        i += 1;
    }
    let mut chain = chain_at(1);
    chain.hash_round0 = mixed;
    let key = build_storage_key(b"p", 1, &chain);
    assert_eq!(key.len(), 5 + 1 + 32);
    assert_eq!(&key[6..], &mixed[..]);
}

#[test]
fn slot_keys() {
    let chain = chain_at(1);
    assert_eq!(Slot::LocalKeyInfo.key(&chain), key_of("local_key_info", None));
    assert_eq!(Slot::EncKey.key(&chain), key_of("enc_key", None));
    assert_eq!(Slot::SecretPoly.key(&chain), key_of("secret_poly", Some(10)));
    assert_eq!(Slot::SecretShares.key(&chain), key_of("secret_shares", Some(11)));
    assert_eq!(Slot::ThresholdSecretKey.key(&chain), key_of("threshold_secret_key", Some(12)));
    assert_eq!(Slot::SecretShares.prefix(), b"secret_shares".to_vec());
    assert_eq!(Slot::SecretShares.round(), 2);
}

#[test]
fn storage_key_sk_after_round_2() {
    let module = module();
    assert_eq!(module.storage_key_sk(&chain_at(75)), None);
    assert_eq!(module.storage_key_sk(&chain_at(0)), None);
    assert_eq!(
        module.storage_key_sk(&chain_at(76)),
        Some(key_of("threshold_secret_key", Some(12)))
    );
    assert_eq!(
        module.storage_key_sk(&other_run_at(200)),
        Some(key_of("threshold_secret_key", Some(22)))
    );
}

#[test]
fn local_store_reads_the_last_value_written() {
    let mut store = LocalStore::new();
    assert_eq!(store.get(&vec![1, 2]), None);
    store.set(vec![1, 2], LocalValue::EncKey([1, 0, 0, 0]));
    store.set(vec![1], LocalValue::EncKey([2, 0, 0, 0]));
    assert_eq!(store.get(&vec![1, 2]), Some(&LocalValue::EncKey([1, 0, 0, 0])));
    assert_eq!(store.get(&vec![1]), Some(&LocalValue::EncKey([2, 0, 0, 0])));
    assert_eq!(store.get(&vec![2]), None);
    assert_eq!(store.get(&Vec::new()), None);
    store.set(vec![1, 2], LocalValue::ThresholdSecretKey([9; 32]));
    assert_eq!(store.get(&vec![1, 2]), Some(&LocalValue::ThresholdSecretKey([9; 32])));
    assert_eq!(store.get(&vec![1]), Some(&LocalValue::EncKey([2, 0, 0, 0])));
    assert!(same_key(&vec![1, 2], &vec![1, 2]));
    assert!(!same_key(&vec![1, 2], &vec![1, 3]));
    assert!(!same_key(&vec![1, 2], &vec![1]));
}

#[test]
fn local_authority_key_is_found_once_and_read_back() {
    let module = module();
    let mut store = LocalStore::new();
    let chain = chain_at(1);
    assert_eq!(
        module.local_authority_key(&mut store, &chain, &vec![id(9), id(3), id(2)]),
        Some((1, id(2)))
    );
    assert_eq!(
        store.get(&key_of("local_key_info", None)),
        Some(&LocalValue::KeyInfo(Some((1, id(2)))))
    );
    // what was noted is read back, whatever the keys are by then
    assert_eq!(module.local_authority_key(&mut store, &chain, &vec![id(1)]), Some((1, id(2))));
    assert_eq!(module.local_authority_key(&mut store, &other_run_at(9), &Vec::new()), Some((1, id(2))));
}

#[test]
fn local_authority_key_of_a_node_outside_the_committee() {
    let module = module();
    let mut store = LocalStore::new();
    assert_eq!(module.local_authority_key(&mut store, &chain_at(1), &vec![id(9)]), None);
    assert_eq!(store.get(&key_of("local_key_info", None)), Some(&LocalValue::KeyInfo(None)));
    assert_eq!(module.local_authority_key(&mut store, &chain_at(1), &vec![id(1)]), None);
}

#[test]
fn handle_round0_keeps_the_secret_and_asks_for_the_key() {
    let module = module();
    let mut store = LocalStore::new();
    let mut bytes = [0u8; 32];
    let mut i = 0;
    while i < 32 {
        bytes[i] = i as u8;
        i += 1;
    }
    let plan = module.handle_round0(&mut store, &chain_at(1), &vec![id(2)], true, bytes);
    let secret = u8_array_to_raw_scalar(bytes);
    assert_eq!(plan, Some(Round0Plan { ix: 1, secret }));
    assert_eq!(store.get(&key_of("enc_key", None)), Some(&LocalValue::EncKey(secret)));
}

#[test]
fn handle_round0_runs_once() {
    let module = module();
    let mut store = LocalStore::new();
    let first = module.handle_round0(&mut store, &chain_at(1), &vec![id(2)], true, seed(5));
    assert!(first.is_some());
    let second = module.handle_round0(&mut store, &chain_at(2), &vec![id(2)], true, seed(6));
    assert_eq!(second, None);
    assert_eq!(
        store.get(&key_of("enc_key", None)),
        Some(&LocalValue::EncKey(u8_array_to_raw_scalar(seed(5))))
    );
}

#[test]
fn handle_round0_of_a_node_outside_the_committee_does_nothing() {
    let module = module();
    let mut store = LocalStore::new();
    assert_eq!(module.handle_round0(&mut store, &chain_at(1), &vec![id(9)], true, seed(5)), None);
    assert_eq!(store.get(&key_of("enc_key", None)), None);
}

#[test]
fn handle_round0_without_signer_keeps_the_secret_and_asks_for_nothing() {
    let module = module();
    let mut store = LocalStore::new();
    assert_eq!(module.handle_round0(&mut store, &chain_at(1), &vec![id(2)], false, seed(5)), None);
    assert_eq!(
        store.get(&key_of("enc_key", None)),
        Some(&LocalValue::EncKey(u8_array_to_raw_scalar(seed(5))))
    );
    assert_eq!(module.handle_round0(&mut store, &chain_at(1), &vec![id(2)], true, seed(6)), None);
}

fn after_round0(module: &Module<Plain>, me: u8) -> LocalStore {
    let mut store = LocalStore::new();
    assert!(module.handle_round0(&mut store, &chain_at(1), &vec![id(me)], true, seed(40)).is_some());
    store
}

#[test]
fn handle_round1_deals_to_the_members_with_keys() {
    let module = module();
    let mut store = after_round0(&module, 1);
    // the polynomial 5 + 7x
    let plan = module.handle_round1(&mut store, &chain_at(43), &vec![id(1)], true, &vec![seed(5), seed(7)]);
    assert_eq!(
        plan,
        Some(Round1Plan {
            ix: 0,
            encryption_secret: Scalar::from_u64(40),
            coefficients: vec![Scalar::from_u64(5), Scalar::from_u64(7)],
            shares: vec![Some(Scalar::from_u64(12)), None, Some(Scalar::from_u64(26))],
            hash_round0: [10; 32],
        })
    );
    assert_eq!(
        store.get(&key_of("secret_poly", Some(10))),
        Some(&LocalValue::SecretPoly(vec![[5, 0, 0, 0], [7, 0, 0, 0]]))
    );
}

#[test]
fn handle_round1_reduces_the_coefficients() {
    let module = module();
    let mut store = after_round0(&module, 1);
    let plan = module
        .handle_round1(&mut store, &chain_at(43), &vec![id(1)], true, &vec![[255u8; 32], seed(0)])
        .unwrap();
    let reduced = Scalar::from_raw([u64::MAX; 4]);
    assert_eq!(plan.coefficients, vec![reduced, Scalar::zero()]);
    assert_eq!(plan.shares, vec![Some(reduced), None, Some(reduced)]);
    assert_eq!(
        store.get(&key_of("secret_poly", Some(10))),
        Some(&LocalValue::SecretPoly(vec![[u64::MAX; 4], [0, 0, 0, 0]]))
    );
}

#[test]
fn handle_round1_runs_once_in_a_run() {
    let module = module();
    let mut store = after_round0(&module, 1);
    let seeds = vec![seed(5), seed(7)];
    assert!(module.handle_round1(&mut store, &chain_at(43), &vec![id(1)], true, &seeds).is_some());
    let again = vec![seed(8), seed(9)];
    assert_eq!(module.handle_round1(&mut store, &chain_at(44), &vec![id(1)], true, &again), None);
    assert_eq!(
        store.get(&key_of("secret_poly", Some(10))),
        Some(&LocalValue::SecretPoly(vec![[5, 0, 0, 0], [7, 0, 0, 0]]))
    );
    // another run has slots of its own
    assert!(module.handle_round1(&mut store, &other_run_at(43), &vec![id(1)], true, &again).is_some());
    assert_eq!(
        store.get(&key_of("secret_poly", Some(20))),
        Some(&LocalValue::SecretPoly(vec![[8, 0, 0, 0], [9, 0, 0, 0]]))
    );
}

#[test]
fn handle_round1_needs_as_many_seeds_as_the_threshold() {
    let module = module();
    let mut store = after_round0(&module, 1);
    assert_eq!(module.handle_round1(&mut store, &chain_at(43), &vec![id(1)], true, &vec![seed(5)]), None);
    assert_eq!(
        module.handle_round1(&mut store, &chain_at(43), &vec![id(1)], true, &vec![seed(5), seed(6), seed(7)]),
        None
    );
    assert_eq!(store.get(&key_of("secret_poly", Some(10))), None);
}

#[test]
fn handle_round1_without_encryption_secret_keeps_the_polynomial_only() {
    let module = module();
    let mut store = LocalStore::new();
    let seeds = vec![seed(5), seed(7)];
    assert_eq!(module.handle_round1(&mut store, &chain_at(43), &vec![id(1)], true, &seeds), None);
    assert_eq!(
        store.get(&key_of("secret_poly", Some(10))),
        Some(&LocalValue::SecretPoly(vec![[5, 0, 0, 0], [7, 0, 0, 0]]))
    );
}

#[test]
fn handle_round1_without_signer_or_outside_the_committee() {
    let module = module();
    let mut store = after_round0(&module, 1);
    let seeds = vec![seed(5), seed(7)];
    assert_eq!(module.handle_round1(&mut store, &chain_at(43), &vec![id(1)], false, &seeds), None);
    assert!(store.get(&key_of("secret_poly", Some(10))).is_some());
    let mut stranger = LocalStore::new();
    assert_eq!(module.handle_round1(&mut stranger, &chain_at(43), &vec![id(9)], true, &seeds), None);
    assert_eq!(stranger.get(&key_of("secret_poly", Some(10))), None);
}

/// Members 0 and 2 deal to everybody; member 0 leaves member 1 out.
fn dealt() -> Module<Plain> {
    let mut module = module();
    module.post_secret_shares(
        &chain_at(50),
        &id(1),
        0,
        vec![Some(1), None, Some(3)],
        vec![20, 21],
        &[10; 32],
    );
    module.post_secret_shares(
        &chain_at(50),
        &id(3),
        2,
        vec![Some(4), Some(5), Some(6)],
        vec![30, 31],
        &[10; 32],
    );
    module
}

#[test]
fn handle_round2_keeps_good_shares_and_complains_about_the_rest() {
    let module = dealt();
    let mut store = after_round0(&module, 2);
    // member 1 was left out by dealer 0, and dealer 2 dealt it a good share;
    // dealer 1 has no encryption key, so there is nothing to complain about
    let opened = vec![None, Some(Scalar::from_u64(77)), Some(Scalar::from_u64(55))];
    let plan = module.handle_round2(&mut store, &chain_at(57), &vec![id(2)], true, &opened);
    assert_eq!(
        plan,
        Some(Round2Plan {
            ix: 1,
            encryption_secret: Scalar::from_u64(40),
            disputes: vec![0],
            hash_round1: [11; 32],
        })
    );
    assert_eq!(
        store.get(&key_of("secret_shares", Some(11))),
        Some(&LocalValue::SecretShares(vec![None, None, Some(Scalar::from_u64(55).to_bytes())]))
    );
}

#[test]
fn handle_round2_complains_about_a_share_that_does_not_open() {
    let module = dealt();
    let mut store = after_round0(&module, 3);
    let opened = vec![Some(Scalar::from_u64(8)), None, None];
    let plan = module.handle_round2(&mut store, &chain_at(57), &vec![id(3)], true, &opened).unwrap();
    assert_eq!(plan.ix, 2);
    assert_eq!(plan.disputes, vec![2]);
    assert_eq!(
        store.get(&key_of("secret_shares", Some(11))),
        Some(&LocalValue::SecretShares(vec![Some(Scalar::from_u64(8).to_bytes()), None, None]))
    );
}

#[test]
fn handle_round2_runs_once_in_a_run() {
    let module = dealt();
    let mut store = after_round0(&module, 1);
    let opened = vec![Some(Scalar::from_u64(8)), None, Some(Scalar::from_u64(9))];
    let first = module.handle_round2(&mut store, &chain_at(57), &vec![id(1)], true, &opened).unwrap();
    assert_eq!(first.disputes, Vec::<u64>::new());
    let other = vec![None, None, None];
    assert_eq!(module.handle_round2(&mut store, &chain_at(58), &vec![id(1)], true, &other), None);
    assert_eq!(
        store.get(&key_of("secret_shares", Some(11))),
        Some(&LocalValue::SecretShares(vec![
            Some(Scalar::from_u64(8).to_bytes()),
            None,
            Some(Scalar::from_u64(9).to_bytes())
        ]))
    );
}

#[test]
fn handle_round2_needs_one_place_for_each_dealer() {
    let module = dealt();
    let mut store = after_round0(&module, 1);
    assert_eq!(module.handle_round2(&mut store, &chain_at(57), &vec![id(1)], true, &vec![None, None]), None);
    assert_eq!(store.get(&key_of("secret_shares", Some(11))), None);
}

#[test]
fn handle_round2_without_encryption_secret_marks_the_run_only() {
    let module = dealt();
    let mut store = LocalStore::new();
    let opened = vec![Some(Scalar::from_u64(8)), None, Some(Scalar::from_u64(9))];
    assert_eq!(module.handle_round2(&mut store, &chain_at(57), &vec![id(1)], true, &opened), None);
    assert_eq!(
        store.get(&key_of("secret_shares", Some(11))),
        Some(&LocalValue::SecretShares(Vec::new()))
    );
}

#[test]
fn handle_round2_without_signer_keeps_the_shares() {
    let module = dealt();
    let mut store = after_round0(&module, 1);
    let opened = vec![Some(Scalar::from_u64(8)), None, None];
    assert_eq!(module.handle_round2(&mut store, &chain_at(57), &vec![id(1)], false, &opened), None);
    assert_eq!(
        store.get(&key_of("secret_shares", Some(11))),
        Some(&LocalValue::SecretShares(vec![Some(Scalar::from_u64(8).to_bytes()), None, None]))
    );
}

fn with_shares(store: &mut LocalStore, shares: Vec<Option<[u8; 32]>>) {
    store.set(key_of("secret_shares", Some(11)), LocalValue::SecretShares(shares));
}

#[test]
fn handle_round3_adds_up_the_shares_of_correct_dealers() {
    let module = dealt();
    let mut store = LocalStore::new();
    // dealer 1 is not a correct dealer: its share does not count
    with_shares(
        &mut store,
        vec![
            Some(Scalar::from_u64(8).to_bytes()),
            Some(Scalar::from_u64(100).to_bytes()),
            Some(Scalar::from_u64(9).to_bytes()),
        ],
    );
    assert!(module.handle_round3(&mut store, &chain_at(76), &vec![id(1)]));
    assert_eq!(
        store.get(&key_of("threshold_secret_key", Some(12))),
        Some(&LocalValue::ThresholdSecretKey(Scalar::from_u64(17).to_bytes()))
    );
}

#[test]
fn handle_round3_adds_in_the_field() {
    let module = dealt();
    let mut store = LocalStore::new();
    let minus_one = Scalar::from_raw([
        0xffff_ffff_0000_0000,
        0x53bd_a402_fffe_5bfe,
        0x3339_d808_09a1_d805,
        0x73ed_a753_299d_7d48,
    ]);
    with_shares(&mut store, vec![Some(minus_one.to_bytes()), None, Some(Scalar::from_u64(5).to_bytes())]);
    assert!(module.handle_round3(&mut store, &chain_at(76), &vec![id(1)]));
    assert_eq!(
        store.get(&key_of("threshold_secret_key", Some(12))),
        Some(&LocalValue::ThresholdSecretKey(Scalar::from_u64(4).to_bytes()))
    );
}

#[test]
fn handle_round3_runs_once_in_a_run() {
    let module = dealt();
    let mut store = LocalStore::new();
    with_shares(&mut store, vec![Some(Scalar::from_u64(8).to_bytes()), None, None]);
    assert!(module.handle_round3(&mut store, &chain_at(76), &vec![id(1)]));
    with_shares(&mut store, vec![Some(Scalar::from_u64(50).to_bytes()), None, None]);
    assert!(!module.handle_round3(&mut store, &chain_at(77), &vec![id(1)]));
    assert_eq!(
        store.get(&key_of("threshold_secret_key", Some(12))),
        Some(&LocalValue::ThresholdSecretKey(Scalar::from_u64(8).to_bytes()))
    );
}

#[test]
fn handle_round3_without_shares_leaves_zero() {
    let module = dealt();
    let mut store = LocalStore::new();
    assert!(!module.handle_round3(&mut store, &chain_at(76), &vec![id(1)]));
    assert_eq!(
        store.get(&key_of("threshold_secret_key", Some(12))),
        Some(&LocalValue::ThresholdSecretKey([0; 32]))
    );
}

#[test]
fn handle_round3_of_an_empty_round_2_is_zero() {
    let module = dealt();
    let mut store = LocalStore::new();
    with_shares(&mut store, Vec::new());
    assert!(module.handle_round3(&mut store, &chain_at(76), &vec![id(1)]));
    assert_eq!(
        store.get(&key_of("threshold_secret_key", Some(12))),
        Some(&LocalValue::ThresholdSecretKey([0; 32]))
    );
}

#[test]
fn handle_round3_stops_at_a_share_that_is_no_scalar() {
    let module = dealt();
    let mut store = LocalStore::new();
    with_shares(&mut store, vec![Some(Scalar::from_u64(8).to_bytes()), None, Some([255; 32])]);
    assert!(!module.handle_round3(&mut store, &chain_at(76), &vec![id(1)]));
    assert_eq!(
        store.get(&key_of("threshold_secret_key", Some(12))),
        Some(&LocalValue::ThresholdSecretKey([0; 32]))
    );
    // a share of a dealer that does not count is not read
    let mut other = LocalStore::new();
    with_shares(&mut other, vec![Some(Scalar::from_u64(8).to_bytes()), Some([255; 32]), None]);
    assert!(module.handle_round3(&mut other, &chain_at(76), &vec![id(1)]));
}

#[test]
fn handle_round3_stops_at_more_shares_than_members() {
    let module = dealt();
    let mut store = LocalStore::new();
    with_shares(&mut store, vec![None, None, None, None]);
    assert!(!module.handle_round3(&mut store, &chain_at(76), &vec![id(1)]));
}

#[test]
fn handle_round3_of_a_node_outside_the_committee_does_nothing() {
    let module = dealt();
    let mut store = LocalStore::new();
    with_shares(&mut store, vec![Some(Scalar::from_u64(8).to_bytes()), None, None]);
    assert!(!module.handle_round3(&mut store, &chain_at(76), &vec![id(9)]));
    assert_eq!(store.get(&key_of("threshold_secret_key", Some(12))), None);
}
