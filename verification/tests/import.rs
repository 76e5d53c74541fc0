use futures::channel::mpsc::{channel, Receiver};
use pallet_dkg::import::{
    evict, has_entry, same_nonce, BlockInfo, Error, ImportAction, Nonce, RandomBytes,
    RandomnessBeaconBlockImport, POLL_INTERVAL_MS,
};

fn hash(tag: u8) -> [u8; 32] {
    let mut bytes = [tag; 32];
    bytes[0] = 1;
    bytes[31] = tag.wrapping_mul(3);
    bytes
}

fn nonce(tag: u8) -> Nonce {
    hash(tag).to_vec()
}

fn block(number: u64, parent: u8, own: u8) -> BlockInfo {
    BlockInfo { number, parent_hash: hash(parent), post_hash: hash(own), has_body: true }
}

fn entry(tag: u8, random: u8) -> (Nonce, RandomBytes) {
    (nonce(tag), vec![random; 4])
}

fn filter(buffer: usize, check_after: u64, max_wait_ms: u64) -> (RandomnessBeaconBlockImport, Receiver<Nonce>) {
    let (tx, rx) = channel(buffer);
    (RandomnessBeaconBlockImport::new(tx, check_after, max_wait_ms), rx)
}

fn received(rx: &mut Receiver<Nonce>) -> Vec<Nonce> {
    let mut all = Vec::new();
    while let Ok(Some(nonce)) = rx.try_next() {
        all.push(nonce);
    }
    all
}

#[test]
fn same_nonce_compares_bytes() {
    assert!(same_nonce(&vec![1, 2, 3], &vec![1, 2, 3]));
    assert!(!same_nonce(&vec![1, 2, 3], &vec![1, 2, 4]));
    assert!(!same_nonce(&vec![1, 2, 3], &vec![1, 2]));
    assert!(same_nonce(&Vec::new(), &Vec::new()));
}

#[test]
fn has_entry_looks_at_nonces_only() {
    let table = vec![entry(1, 9), entry(2, 8)];
    assert!(has_entry(&table, &nonce(1)));
    assert!(has_entry(&table, &nonce(2)));
    assert!(!has_entry(&table, &nonce(3)));
    assert!(!has_entry(&table, &vec![9, 9, 9, 9]));
    assert!(!has_entry(&Vec::new(), &nonce(1)));
}

#[test]
fn evict_takes_every_entry_of_the_nonce_and_keeps_the_order() {
    let mut table = vec![entry(1, 9), entry(2, 8), entry(1, 7), entry(3, 6), entry(1, 5)];
    evict(&mut table, &nonce(1));
    assert_eq!(table, vec![entry(2, 8), entry(3, 6)]);
    evict(&mut table, &nonce(9));
    assert_eq!(table, vec![entry(2, 8), entry(3, 6)]);
    evict(&mut table, &nonce(3));
    assert_eq!(table, vec![entry(2, 8)]);
    evict(&mut table, &nonce(2));
    assert_eq!(table, Vec::new());
    evict(&mut table, &nonce(2));
    assert_eq!(table, Vec::new());
}

#[test]
fn import_block_waits_then_lets_the_block_through() {
    let (mut filter, mut rx) = filter(4, 0, 10_000);
    let mut table: Vec<(Nonce, RandomBytes)> = Vec::new();
    let b = block(7, 1, 2);
    assert_eq!(filter.import_block(&b, &mut table, None, false), ImportAction::Sleep(POLL_INTERVAL_MS));
    assert_eq!(filter.import_block(&b, &mut table, Some(100), false), ImportAction::Sleep(100));
    assert_eq!(filter.import_block(&b, &mut table, Some(200), false), ImportAction::Sleep(100));
    assert_eq!(received(&mut rx), Vec::<Nonce>::new());
    // after 250 ms the beacon brings the randomness of the parent
    table.push(entry(1, 9));
    assert_eq!(filter.import_block(&b, &mut table, Some(300), false), ImportAction::Delegate);
    assert_eq!(received(&mut rx), vec![nonce(2)]);
    assert!(filter.has_announced(&nonce(2)));
    assert_eq!(table, vec![entry(1, 9)]);
    // the next child of the same parent takes the entry away
    let sibling = block(7, 1, 3);
    assert_eq!(filter.import_block(&sibling, &mut table, None, false), ImportAction::Sleep(100));
    assert_eq!(table, Vec::new());
}

#[test]
fn import_block_forgets_the_parent_on_the_first_step_only() {
    let (mut filter, mut rx) = filter(4, 0, 10_000);
    let mut table = vec![entry(5, 1), entry(1, 9), entry(6, 2)];
    let parent = block(6, 0, 1);
    table.push(entry(0, 3));
    assert_eq!(filter.import_block(&parent, &mut table, Some(0), false), ImportAction::Delegate);
    assert_eq!(received(&mut rx), vec![nonce(1)]);
    assert!(filter.has_announced(&nonce(1)));
    let child = block(7, 1, 2);
    assert_eq!(filter.import_block(&child, &mut table, None, false), ImportAction::Sleep(100));
    assert_eq!(table, vec![entry(5, 1), entry(6, 2), entry(0, 3)]);
    assert!(!filter.has_announced(&nonce(1)));
    table.push(entry(1, 4));
    assert_eq!(filter.import_block(&child, &mut table, Some(100), false), ImportAction::Delegate);
    assert_eq!(table, vec![entry(5, 1), entry(6, 2), entry(0, 3), entry(1, 4)]);
    assert_eq!(received(&mut rx), vec![nonce(2)]);
}

#[test]
fn import_block_gives_up_when_the_time_is_up() {
    let (mut filter, mut rx) = filter(4, 0, 250);
    let mut table: Vec<(Nonce, RandomBytes)> = Vec::new();
    let b = block(7, 1, 2);
    assert_eq!(filter.import_block(&b, &mut table, None, false), ImportAction::Sleep(100));
    assert_eq!(filter.import_block(&b, &mut table, Some(249), false), ImportAction::Sleep(100));
    assert_eq!(
        filter.import_block(&b, &mut table, Some(250), false),
        ImportAction::Reject(Error::TransmitErr)
    );
    assert_eq!(
        filter.import_block(&b, &mut table, Some(u64::MAX), false),
        ImportAction::Reject(Error::TransmitErr)
    );
    assert_eq!(received(&mut rx), Vec::<Nonce>::new());
    assert!(!filter.has_announced(&nonce(2)));
    let (mut hasty, _rx) = self::filter(4, 0, 0);
    assert_eq!(
        hasty.import_block(&b, &mut table, None, false),
        ImportAction::Reject(Error::TransmitErr)
    );
}

#[test]
fn import_block_does_not_wait_for_early_blocks_or_blocks_without_body() {
    let (mut filter, mut rx) = filter(4, 10, 1000);
    let mut table: Vec<(Nonce, RandomBytes)> = Vec::new();
    assert_eq!(filter.import_block(&block(9, 1, 2), &mut table, None, false), ImportAction::Delegate);
    assert_eq!(filter.import_block(&block(10, 2, 3), &mut table, None, false), ImportAction::Sleep(100));
    let mut bare = block(11, 3, 4);
    bare.has_body = false;
    assert_eq!(filter.import_block(&bare, &mut table, None, false), ImportAction::Delegate);
    assert_eq!(received(&mut rx), vec![nonce(2), nonce(4)]);
}

#[test]
fn import_block_announces_a_block_once() {
    let (mut filter, mut rx) = filter(4, 100, 1000);
    let mut table: Vec<(Nonce, RandomBytes)> = Vec::new();
    let b = block(1, 1, 2);
    assert_eq!(filter.import_block(&b, &mut table, None, false), ImportAction::Delegate);
    assert_eq!(filter.import_block(&b, &mut table, None, false), ImportAction::Delegate);
    assert_eq!(received(&mut rx), vec![nonce(2)]);
    // a block that is in the chain is not announced
    assert_eq!(filter.import_block(&block(2, 2, 3), &mut table, None, true), ImportAction::Delegate);
    assert_eq!(received(&mut rx), Vec::<Nonce>::new());
    assert!(!filter.has_announced(&nonce(3)));
    // importing a child clears the announcement of its parent
    assert!(!filter.has_announced(&nonce(2)));
}

#[test]
fn import_block_turns_the_block_away_when_the_channel_is_full() {
    let (mut filter, mut rx) = filter(0, 100, 1000);
    let mut table: Vec<(Nonce, RandomBytes)> = Vec::new();
    assert_eq!(filter.import_block(&block(1, 1, 2), &mut table, None, false), ImportAction::Delegate);
    assert_eq!(
        filter.import_block(&block(1, 1, 3), &mut table, None, false),
        ImportAction::Reject(Error::TransmitErr)
    );
    assert!(filter.has_announced(&nonce(2)));
    assert!(!filter.has_announced(&nonce(3)));
    assert_eq!(received(&mut rx), vec![nonce(2)]);
    assert_eq!(filter.import_block(&block(1, 1, 3), &mut table, None, false), ImportAction::Delegate);
    assert_eq!(received(&mut rx), vec![nonce(3)]);
}

#[test]
fn import_block_turns_the_block_away_when_the_beacon_is_gone() {
    let (mut filter, rx) = filter(4, 100, 1000);
    drop(rx);
    let mut table: Vec<(Nonce, RandomBytes)> = Vec::new();
    assert_eq!(
        filter.import_block(&block(1, 1, 2), &mut table, None, false),
        ImportAction::Reject(Error::TransmitErr)
    );
    assert!(!filter.has_announced(&nonce(2)));
}

#[test]
fn clear_old_random_bytes_clears_both() {
    let (mut filter, _rx) = filter(4, 0, 1000);
    assert_eq!(filter.note_announcement(nonce(1), true), Ok(()));
    assert_eq!(filter.note_announcement(nonce(2), true), Ok(()));
    assert_eq!(filter.note_announcement(nonce(1), true), Ok(()));
    let mut table = vec![entry(1, 9), entry(2, 8), entry(1, 7)];
    filter.clear_old_random_bytes(&hash(1), &mut table);
    assert_eq!(table, vec![entry(2, 8)]);
    assert!(!filter.has_announced(&nonce(1)));
    assert!(filter.has_announced(&nonce(2)));
}

#[test]
fn check_inherents_looks_once() {
    let (filter, _rx) = filter(4, 5, 300);
    let empty: Vec<(Nonce, RandomBytes)> = Vec::new();
    let table = vec![entry(1, 9)];
    assert_eq!(filter.check_inherents(&block(4, 1, 2), &empty, 1000), Ok(true));
    assert_eq!(filter.check_inherents(&block(5, 1, 2), &empty, 0), Ok(false));
    assert_eq!(filter.check_inherents(&block(5, 1, 2), &empty, 299), Ok(false));
    assert_eq!(filter.check_inherents(&block(5, 1, 2), &empty, 300), Err(Error::TransmitErr));
    assert_eq!(filter.check_inherents(&block(5, 1, 2), &table, 300), Ok(true));
    assert_eq!(filter.check_inherents(&block(5, 3, 2), &table, 0), Ok(false));
}

#[test]
fn hash_to_nonce_encodes_the_hash() {
    let (mut filter, _rx) = filter(4, 0, 1000);
    assert_eq!(filter.hash_to_nonce(false, &hash(7)), Some(nonce(7)));
    assert_eq!(filter.hash_to_nonce(true, &hash(7)), None);
    assert_eq!(filter.note_announcement(nonce(7), true), Ok(()));
    assert_eq!(filter.hash_to_nonce(false, &hash(7)), None);
    assert_eq!(filter.hash_to_nonce(false, &hash(8)), Some(nonce(8)));
}

#[test]
fn note_announcement_of_a_nonce_that_was_not_sent() {
    let (mut filter, _rx) = filter(4, 0, 1000);
    assert_eq!(filter.note_announcement(nonce(7), false), Err(Error::TransmitErr));
    assert!(!filter.has_announced(&nonce(7)));
}

#[test]
fn clone_with_copies_what_was_announced() {
    let (mut filter, mut rx) = filter(4, 7, 1000);
    assert_eq!(filter.note_announcement(nonce(1), true), Ok(()));
    assert_eq!(filter.note_announcement(nonce(2), true), Ok(()));
    let (tx, mut other_rx) = channel(4);
    let mut copy = filter.clone_with(tx);
    assert!(copy.has_announced(&nonce(1)));
    assert!(copy.has_announced(&nonce(2)));
    assert!(!copy.has_announced(&nonce(3)));
    let mut table: Vec<(Nonce, RandomBytes)> = Vec::new();
    // the copy waits from block 7 on, as the first does
    assert_eq!(copy.import_block(&block(6, 8, 3), &mut table, None, false), ImportAction::Delegate);
    assert_eq!(copy.import_block(&block(7, 8, 4), &mut table, None, false), ImportAction::Sleep(100));
    assert_eq!(received(&mut other_rx), vec![nonce(3)]);
    assert_eq!(received(&mut rx), Vec::<Nonce>::new());
    // and the two go their own ways from then on
    assert!(!filter.has_announced(&nonce(3)));
    assert_eq!(filter.note_announcement(nonce(5), true), Ok(()));
    assert!(!copy.has_announced(&nonce(5)));
}
