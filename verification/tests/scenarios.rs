use pallet_dkg::local::{LocalStore, LocalValue};
use pallet_dkg::offchain::Round1Plan;
use pallet_dkg::pallet::Module;
use pallet_dkg::scalar::{poly_eval, Scalar};
use pallet_dkg::types::{Chain, DKGId, Dispute, Event, Trait};

/// A stand-in for the host's cryptography, over the scalar field itself:
/// a public key is the secret times 5, the key that two members share is
/// the product of one's public key and the other's secret, a share is
/// encrypted by xor with the bytes of the shared key, and the commitment
/// to a scalar is the scalar times 3. A key is derived by adding up.
struct Toy;

impl Trait for Toy {
    type EncryptionPublicKey = Scalar;
    type Commitment = Scalar;
    type EncryptedShare = [u8; 32];
    type VerifyKey = Scalar;
}

fn public_key(secret: &Scalar) -> Scalar {
    secret.times(&Scalar::from_u64(5))
}

fn shared_key(pk: &Scalar, secret: &Scalar) -> Scalar {
    pk.times(secret)
}

fn xor(a: [u8; 32], b: [u8; 32]) -> [u8; 32] {
    let mut out = [0u8; 32];
    let mut i = 0;
    while i < 32 {
        out[i] = a[i] ^ b[i];
        i += 1;
    }
    out
}

fn encrypt(key: &Scalar, share: &Scalar) -> [u8; 32] {
    xor(share.to_bytes(), key.to_bytes())
}

fn decrypt(key: &Scalar, cipher: &[u8; 32]) -> Option<Scalar> {
    Scalar::from_bytes(&xor(*cipher, key.to_bytes()))
}

fn commit(scalar: &Scalar) -> Scalar {
    scalar.times(&Scalar::from_u64(3))
}

fn commitment_at(poly: &Vec<Scalar>, point: &Scalar) -> Scalar {
    poly_eval(poly, point)
}

fn derive_key(parts: &Vec<Scalar>) -> Scalar {
    let mut key = Scalar::zero();
    for part in parts.iter() {
        key = key.plus(part);
    }
    key
}

fn negative(x: u64) -> Scalar {
    // the modulus less x, for 0 < x < 2^32
    Scalar::from_raw([
        0xffff_ffff_0000_0001 - x,
        0x53bd_a402_fffe_5bfe,
        0x3339_d808_09a1_d805,
        0x73ed_a753_299d_7d48,
    ])
}

fn id(member: usize) -> DKGId {
    let mut bytes = [0u8; 32];
    bytes[0] = member as u8 + 1;
    bytes[5] = 200 - member as u8;
    DKGId(bytes)
}

fn seed(tag: u8) -> [u8; 32] {
    let mut bytes = [0u8; 32];
    let mut i = 0;
    while i < 31 {
        bytes[i] = tag.wrapping_mul(i as u8 + 1).wrapping_add(17);
        i += 1;
    }
    bytes
}

const N: usize = 4;

fn chain_at(block_number: u64) -> Chain {
    Chain {
        block_number,
        hash_round0: [0xa0; 32],
        hash_round1: [0xa1; 32],
        hash_round2: [0xa2; 32],
        hash_round3: [0xa3; 32],
    }
}

/// One run with four members, threshold 3, ready at block 40: the rounds
/// end at blocks 16, 22, 30 and 40.
struct World {
    module: Module<Toy>,
    stores: Vec<LocalStore>,
    secrets: Vec<Option<Scalar>>,
    polys: Vec<Option<Vec<Scalar>>>,
}

fn world() -> World {
    let mut module: Module<Toy> = Module::new(40);
    module.init_store(&vec![id(2), id(0), id(3), id(1)]);
    assert_eq!(module.set_threshold(3), Event::StartDKG(4, 3));
    assert_eq!(module.round_end(0), 16);
    assert_eq!(module.round_end(1), 22);
    assert_eq!(module.round_end(2), 30);
    assert_eq!(module.round_end(3), 40);
    World {
        module,
        stores: vec![LocalStore::new(), LocalStore::new(), LocalStore::new(), LocalStore::new()],
        secrets: vec![None; N],
        polys: vec![None; N],
    }
}

fn round0(world: &mut World) {
    assert_eq!(world.module.offchain_round(1), Some(0));
    let mut member = 0;
    while member < N {
        let plan = world
            .module
            .handle_round0(&mut world.stores[member], &chain_at(1), &vec![id(member)], true, seed(member as u8))
            .unwrap();
        assert_eq!(plan.ix, member as u64);
        let secret = Scalar::from_raw(plan.secret);
        world.module.post_encryption_key(&chain_at(2), &id(member), plan.ix, public_key(&secret));
        world.secrets[member] = Some(secret);
        member += 1;
    }
    assert_eq!(world.module.on_finalize(16, None), vec![Event::RoundEnded(0, 4)]);
}

fn plan_round1(world: &mut World, member: usize) -> Round1Plan {
    assert_eq!(world.module.offchain_round(16), Some(1));
    let seeds = vec![seed(50 + member as u8), seed(60 + member as u8), seed(70 + member as u8)];
    let plan = world
        .module
        .handle_round1(&mut world.stores[member], &chain_at(16), &vec![id(member)], true, &seeds)
        .unwrap();
    assert_eq!(plan.ix, member as u64);
    assert_eq!(plan.coefficients.len(), 3);
    assert_eq!(plan.shares.len(), N);
    assert_eq!(Some(plan.encryption_secret), world.secrets[member]);
    plan
}

fn encrypted(world: &World, plan: &Round1Plan) -> Vec<Option<[u8; 32]>> {
    let mut shares = Vec::new();
    let mut j = 0;
    while j < N {
        shares.push(match (&plan.shares[j], world.module.encryption_pk(j as u64)) {
            (Some(share), Some(pk)) => Some(encrypt(&shared_key(pk, &plan.encryption_secret), share)),
            _ => None,
        });
        j += 1;
    }
    shares
}

fn deal(world: &mut World, member: usize) {
    let plan = plan_round1(world, member);
    let shares = encrypted(world, &plan);
    let comms: Vec<Scalar> = plan.coefficients.iter().map(commit).collect();
    world.module.post_secret_shares(&chain_at(17), &id(member), plan.ix, shares, comms, &plan.hash_round0);
    world.polys[member] = Some(plan.coefficients);
}

/// What the host finds of the share that `creator` dealt `member`.
fn open(world: &World, creator: usize, member: usize) -> Option<Scalar> {
    let (pk, cipher, poly, point) = world.module.dealt_share(creator as u64, member as u64)?;
    let key = shared_key(pk, world.secrets[member].as_ref().unwrap());
    let share = decrypt(&key, cipher)?;
    if commit(&share) == commitment_at(poly, &point) {
        Some(share)
    } else {
        None
    }
}

/// What the chain finds of a complaint of `member` about `creator` made
/// with the key `presented`.
fn adjudicate(world: &World, member: usize, creator: usize, presented: &Scalar) -> Dispute {
    let key_is_correct = match world.module.key_pair(creator as u64, member as u64) {
        Some((of_creator, _)) => {
            shared_key(of_creator, world.secrets[member].as_ref().unwrap()) == *presented
        },
        None => false,
    };
    let share_is_valid = match world.module.dealt_share(creator as u64, member as u64) {
        Some((_, cipher, poly, point)) => match decrypt(presented, cipher) {
            Some(share) => commit(&share) == commitment_at(poly, &point),
            None => false,
        },
        None => false,
    };
    Dispute { creator: creator as u64, key_is_correct, share_is_valid }
}

fn round2(world: &mut World, member: usize) -> Vec<u64> {
    assert_eq!(world.module.offchain_round(22), Some(2));
    let mut opened = Vec::new();
    let mut creator = 0;
    while creator < N {
        opened.push(open(world, creator, member));
        creator += 1;
    }
    let plan = world
        .module
        .handle_round2(&mut world.stores[member], &chain_at(22), &vec![id(member)], true, &opened)
        .unwrap();
    assert_eq!(plan.ix, member as u64);
    let mut disputes = Vec::new();
    for creator in plan.disputes.iter() {
        let pk = world.module.encryption_pk(*creator).unwrap();
        let presented = shared_key(pk, &plan.encryption_secret);
        disputes.push(adjudicate(world, member, *creator as usize, &presented));
    }
    world.module.post_disputes(&chain_at(23), &id(member), plan.ix, &disputes, &plan.hash_round1);
    plan.disputes
}

fn finalize(world: &mut World) -> Vec<Event> {
    let polys = world.module.qualified_polynomials();
    assert_eq!(polys.len(), world.module.qualified_dealers().len());
    let secret_commitments: Vec<Scalar> = world.module.secret_commitments().into_iter().map(|c| *c).collect();
    let mvk = derive_key(&secret_commitments);
    let mut vks = Vec::new();
    for point in world.module.member_points().iter() {
        let parts: Vec<Scalar> = polys.iter().map(|poly| commitment_at(poly, point)).collect();
        vks.push(derive_key(&parts));
    }
    assert!(world.module.wants_keys(30));
    world.module.on_finalize(30, Some((mvk, vks)))
}

fn round3(world: &mut World, member: usize) -> Scalar {
    assert_eq!(world.module.offchain_round(30), Some(3));
    assert!(world.module.handle_round3(&mut world.stores[member], &chain_at(30), &vec![id(member)]));
    let key = world.module.storage_key_sk(&chain_at(31)).unwrap();
    match world.stores[member].get(&key) {
        Some(LocalValue::ThresholdSecretKey(bytes)) => Scalar::from_bytes(bytes).unwrap(),
        _ => panic!("no share of the secret was kept"),
    }
}

/// The share of `member` in the secret that `dealers` dealt.
fn expected_share(world: &World, dealers: &[usize], member: usize) -> Scalar {
    let mut sum = Scalar::zero();
    for dealer in dealers.iter() {
        let poly = world.polys[*dealer].as_ref().unwrap();
        sum = sum.plus(&poly_eval(poly, &Scalar::from_u64(member as u64 + 1)));
    }
    sum
}

fn expected_master_key(world: &World, dealers: &[usize]) -> Scalar {
    let mut sum = Scalar::zero();
    for dealer in dealers.iter() {
        sum = sum.plus(&commit(&world.polys[*dealer].as_ref().unwrap()[0]));
    }
    sum
}

#[test]
fn happy_path_four_members_threshold_three() {
    let mut world = world();
    round0(&mut world);
    let mut member = 0;
    while member < N {
        deal(&mut world, member);
        member += 1;
    }
    assert_eq!(world.module.on_finalize(22, None), vec![Event::RoundEnded(1, 4)]);
    member = 0;
    while member < N {
        assert_eq!(round2(&mut world, member), Vec::<u64>::new());
        member += 1;
    }
    assert_eq!(world.module.is_correct_dealer(), vec![true; 4]);
    // every share of a qualified dealer opens the dealer's commitment
    let mut dealer = 0;
    while dealer < N {
        let mut recipient = 0;
        while recipient < N {
            let share = open(&world, dealer, recipient).unwrap();
            let poly = world.polys[dealer].as_ref().unwrap();
            assert_eq!(share, poly_eval(poly, &Scalar::from_u64(recipient as u64 + 1)));
            recipient += 1;
        }
        dealer += 1;
    }
    assert_eq!(finalize(&mut world), vec![Event::RoundEnded(2, 4)]);
    let all = [0usize, 1, 2, 3];
    assert_eq!(world.module.master_verification_key(), Some(&expected_master_key(&world, &all)));
    let c00 = commit(&world.polys[0].as_ref().unwrap()[0]);
    let c10 = commit(&world.polys[1].as_ref().unwrap()[0]);
    let c20 = commit(&world.polys[2].as_ref().unwrap()[0]);
    let c30 = commit(&world.polys[3].as_ref().unwrap()[0]);
    assert_eq!(world.module.master_verification_key(), Some(&derive_key(&vec![c00, c10, c20, c30])));
    let keys = world.module.verification_keys().unwrap().clone();
    assert_eq!(keys.len(), N);
    let mut shares = Vec::new();
    member = 0;
    while member < N {
        let share = round3(&mut world, member);
        assert_ne!(share, Scalar::zero());
        assert_eq!(share, expected_share(&world, &all, member));
        assert_eq!(commit(&share), keys[member]);
        shares.push(share);
        member += 1;
    }
    assert_eq!(world.module.on_finalize(40, None), vec![Event::RoundEnded(3, 4)]);
    // members 0, 1, 2 put the secret together: 3 s0 - 3 s1 + s2
    let secret = Scalar::from_u64(3)
        .times(&shares[0])
        .plus(&negative(3).times(&shares[1]))
        .plus(&shares[2]);
    assert_eq!(Some(&commit(&secret)), world.module.master_verification_key());
    // and so do members 1, 2, 3: 6 s1 - 8 s2 + 3 s3
    let again = Scalar::from_u64(6)
        .times(&shares[1])
        .plus(&negative(8).times(&shares[2]))
        .plus(&Scalar::from_u64(3).times(&shares[3]));
    assert_eq!(again, secret);
}

#[test]
fn silent_dealer() {
    let mut world = world();
    round0(&mut world);
    let mut member = 1;
    while member < N {
        deal(&mut world, member);
        member += 1;
    }
    assert_eq!(world.module.on_finalize(22, None), vec![Event::RoundEnded(1, 3)]);
    assert_eq!(world.module.is_correct_dealer(), vec![false, true, true, true]);
    member = 0;
    while member < N {
        // the silent dealer has published an encryption key and dealt nothing
        assert_eq!(round2(&mut world, member), vec![0]);
        member += 1;
    }
    assert_eq!(world.module.is_correct_dealer(), vec![false, true, true, true]);
    assert_eq!(finalize(&mut world), vec![Event::RoundEnded(2, 3)]);
    let dealers = [1usize, 2, 3];
    assert_eq!(world.module.qualified_dealers(), vec![1, 2, 3]);
    assert_eq!(world.module.master_verification_key(), Some(&expected_master_key(&world, &dealers)));
    let keys = world.module.verification_keys().unwrap().clone();
    member = 1;
    while member < N {
        let share = round3(&mut world, member);
        assert_eq!(share, expected_share(&world, &dealers, member));
        assert_eq!(commit(&share), keys[member]);
        member += 1;
    }
}

#[test]
fn malformed_shares() {
    let mut world = world();
    round0(&mut world);
    deal(&mut world, 0);
    // member 1 commits to its polynomial and deals member 2 another share
    let plan = plan_round1(&mut world, 1);
    let mut shares = encrypted(&world, &plan);
    let pk = *world.module.encryption_pk(2).unwrap();
    let bad = plan.shares[2].unwrap().plus(&Scalar::from_u64(1));
    shares[2] = Some(encrypt(&shared_key(&pk, &plan.encryption_secret), &bad));
    let comms: Vec<Scalar> = plan.coefficients.iter().map(commit).collect();
    world.module.post_secret_shares(&chain_at(17), &id(1), 1, shares, comms, &plan.hash_round0);
    world.polys[1] = Some(plan.coefficients);
    deal(&mut world, 2);
    deal(&mut world, 3);
    assert_eq!(world.module.is_correct_dealer(), vec![true; 4]);
    assert_eq!(round2(&mut world, 0), Vec::<u64>::new());
    assert_eq!(world.module.is_correct_dealer(), vec![true; 4]);
    assert_eq!(round2(&mut world, 2), vec![1]);
    assert_eq!(world.module.is_correct_dealer(), vec![true, false, true, true]);
    // member 3 complains about dealer 1 with its own good share: nothing happens
    let presented = shared_key(world.module.encryption_pk(1).unwrap(), world.secrets[3].as_ref().unwrap());
    let unfounded = adjudicate(&world, 3, 1, &presented);
    assert_eq!(unfounded, Dispute { creator: 1, key_is_correct: true, share_is_valid: true });
    let about_zero = adjudicate(&world, 3, 0, &shared_key(world.module.encryption_pk(0).unwrap(), world.secrets[3].as_ref().unwrap()));
    world.module.post_disputes(&chain_at(24), &id(3), 3, &vec![unfounded, about_zero], &[0xa1; 32]);
    assert_eq!(world.module.is_correct_dealer(), vec![true, false, true, true]);
    assert_eq!(finalize(&mut world), vec![Event::RoundEnded(2, 3)]);
    assert_eq!(world.module.master_verification_key(), Some(&expected_master_key(&world, &[0, 2, 3])));
}

#[test]
fn unfounded_dispute() {
    let mut world = world();
    round0(&mut world);
    let mut member = 0;
    while member < N {
        deal(&mut world, member);
        member += 1;
    }
    // member 3 presents a key that is not the one it shares with dealer 1
    let wrong = Scalar::from_u64(12345);
    let first = adjudicate(&world, 3, 1, &wrong);
    assert!(!first.key_is_correct);
    world.module.post_disputes(&chain_at(23), &id(3), 3, &vec![first], &[0xa1; 32]);
    assert_eq!(world.module.is_correct_dealer(), vec![true; 4]);
    // in a batch, the complaints after it are still looked at
    let founded = Dispute { creator: 2, key_is_correct: true, share_is_valid: false };
    world.module.post_disputes(&chain_at(23), &id(3), 3, &vec![first, founded, first], &[0xa1; 32]);
    assert_eq!(world.module.is_correct_dealer(), vec![true, true, false, true]);
}

#[test]
fn stale_round_hash() {
    let mut world = world();
    round0(&mut world);
    deal(&mut world, 0);
    deal(&mut world, 1);
    let plan = plan_round1(&mut world, 2);
    let shares = encrypted(&world, &plan);
    let comms: Vec<Scalar> = plan.coefficients.iter().map(commit).collect();
    world.module.post_secret_shares(&chain_at(17), &id(2), 2, shares, comms, &[0xb0; 32]);
    deal(&mut world, 3);
    assert_eq!(world.module.is_correct_dealer(), vec![true, true, false, true]);
    assert_eq!(world.module.committed_polynomial(2), None);
    assert_eq!(world.module.encrypted_share(2, 0), None);
    assert_eq!(world.module.encrypted_share(2, 3), None);
    assert_eq!(world.module.on_finalize(22, None), vec![Event::RoundEnded(1, 3)]);
    let mut member = 0;
    while member < N {
        assert_eq!(round2(&mut world, member), vec![2]);
        member += 1;
    }
    world.polys[2] = None;
    assert_eq!(finalize(&mut world), vec![Event::RoundEnded(2, 3)]);
    assert_eq!(world.module.is_correct_dealer(), vec![true, true, false, true]);
    assert_eq!(world.module.master_verification_key(), Some(&expected_master_key(&world, &[0, 1, 3])));
}

#[test]
fn offchain_rounds_run_once() {
    let mut world = world();
    round0(&mut world);
    assert_eq!(world.module.handle_round0(&mut world.stores[0], &chain_at(3), &vec![id(0)], true, seed(9)), None);
    deal(&mut world, 0);
    let seeds = vec![seed(1), seed(2), seed(3)];
    assert_eq!(world.module.handle_round1(&mut world.stores[0], &chain_at(17), &vec![id(0)], true, &seeds), None);
    assert_eq!(round2(&mut world, 0), vec![1, 2, 3]);
    let opened = vec![None, None, None, None];
    assert_eq!(world.module.handle_round2(&mut world.stores[0], &chain_at(23), &vec![id(0)], true, &opened), None);
    let share = round3(&mut world, 0);
    assert!(!world.module.handle_round3(&mut world.stores[0], &chain_at(31), &vec![id(0)]));
    let key = world.module.storage_key_sk(&chain_at(31)).unwrap();
    assert_eq!(world.stores[0].get(&key), Some(&LocalValue::ThresholdSecretKey(share.to_bytes())));
}
