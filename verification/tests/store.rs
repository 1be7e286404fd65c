use light_client::store::Store;
use light_client::types::{
    Commit, Digest, Header, Height, LightBlock, PeerId, SignedHeader, Time, ValidatorSet,
    VerificationStatus,
};

use VerificationStatus::{Failed, Trusted, Unverified, Verified};

fn peer(tag: u8) -> PeerId {
    PeerId { bytes: [tag; 20] }
}

fn block(height: Height, provider: u8) -> LightBlock {
    let empty = Digest { bytes: [0; 32] };
    LightBlock {
        signed_header: SignedHeader {
            header: Header {
                height,
                time: Time { nanos: height },
                chain_id: String::new(),
                validators_hash: empty,
                next_validators_hash: empty,
                last_block_hash: empty,
            },
            commit: Commit { height, round: 0, block_id: empty, signatures: Vec::new() },
        },
        validators: ValidatorSet::new(Vec::new()).unwrap(),
        next_validators: ValidatorSet::new(Vec::new()).unwrap(),
        provider: peer(provider),
    }
}

fn status(store: &Store, height: Height) -> Option<VerificationStatus> {
    store.get(height).map(|entry| entry.status)
}

fn height(block: Option<&LightBlock>) -> Option<Height> {
    block.map(|block| block.signed_header.header.height)
}

#[test]
fn empty_store_holds_nothing() {
    let store = Store::new();
    assert!(store.get(1).is_none());
    assert!(store.highest_trusted_or_verified().is_none());
    assert!(store.latest_trusted_or_verified().is_none());
    assert!(store.highest(Unverified).is_none());
    assert!(store.lowest_above(0, Verified).is_none());
}

#[test]
fn insert_files_by_height() {
    let mut store = Store::new();
    assert!(store.insert(block(5, 1), Unverified));
    assert!(store.insert(block(3, 1), Trusted));
    assert!(store.insert(block(9, 1), Verified));
    assert!(store.insert(block(7, 2), Failed));
    assert_eq!(status(&store, 3), Some(Trusted));
    assert_eq!(status(&store, 5), Some(Unverified));
    assert_eq!(status(&store, 7), Some(Failed));
    assert_eq!(status(&store, 9), Some(Verified));
    assert_eq!(status(&store, 4), None);
    assert_eq!(store.get(7).unwrap().block, block(7, 2));
}

#[test]
fn one_block_per_height() {
    let mut store = Store::new();
    assert!(store.insert(block(5, 1), Verified));
    assert!(!store.insert(block(5, 2), Verified));
    assert!(!store.insert(block(5, 2), Unverified));
    assert!(!store.insert(block(5, 2), Failed));
    assert_eq!(store.get(5).unwrap().block.provider, peer(1));
    assert!(store.insert(block(6, 1), Failed));
    assert!(!store.insert(block(6, 2), Verified));
    assert!(store.insert(block(7, 1), Trusted));
    assert!(!store.insert(block(7, 1), Verified));
}

#[test]
fn undecided_block_can_be_decided_by_insert() {
    let mut store = Store::new();
    assert!(store.insert(block(5, 1), Unverified));
    assert!(!store.insert(block(5, 2), Unverified));
    assert!(!store.insert(block(5, 2), Trusted));
    assert!(store.insert(block(5, 2), Verified));
    assert_eq!(store.get(5).unwrap().block.provider, peer(2));
    assert_eq!(status(&store, 5), Some(Verified));
    assert!(store.insert(block(6, 1), Unverified));
    assert!(store.insert(block(6, 1), Failed));
    assert_eq!(status(&store, 6), Some(Failed));
}

#[test]
fn only_one_seed() {
    let mut store = Store::new();
    assert!(store.insert(block(5, 1), Trusted));
    assert!(!store.insert(block(6, 1), Trusted));
    assert_eq!(status(&store, 6), None);
}

#[test]
fn promote_decides_an_undecided_block() {
    let mut store = Store::new();
    store.insert(block(5, 1), Unverified);
    store.insert(block(6, 1), Unverified);
    store.insert(block(7, 1), Verified);
    assert!(store.promote(5, Verified));
    assert!(store.promote(6, Failed));
    assert_eq!(status(&store, 5), Some(Verified));
    assert_eq!(status(&store, 6), Some(Failed));
    assert_eq!(store.get(5).unwrap().block, block(5, 1));
    // Not there, decided already, or no decision.
    assert!(!store.promote(4, Verified));
    assert!(!store.promote(5, Failed));
    assert!(!store.promote(6, Verified));
    assert!(!store.promote(7, Failed));
    store.insert(block(8, 1), Unverified);
    assert!(!store.promote(8, Unverified));
    assert!(!store.promote(8, Trusted));
    assert_eq!(status(&store, 8), Some(Unverified));
}

#[test]
fn discard_spares_what_trust_rests_on() {
    let mut store = Store::new();
    store.insert(block(3, 1), Trusted);
    store.insert(block(5, 1), Verified);
    store.insert(block(6, 1), Unverified);
    store.insert(block(7, 1), Failed);
    assert!(!store.discard(3));
    assert!(!store.discard(5));
    assert!(!store.discard(4));
    assert!(store.discard(6));
    assert!(store.discard(7));
    assert_eq!(status(&store, 3), Some(Trusted));
    assert_eq!(status(&store, 5), Some(Verified));
    assert_eq!(status(&store, 6), None);
    assert_eq!(status(&store, 7), None);
}

#[test]
fn highest_by_status() {
    let mut store = Store::new();
    store.insert(block(3, 1), Trusted);
    store.insert(block(5, 1), Verified);
    store.insert(block(8, 1), Verified);
    store.insert(block(9, 1), Unverified);
    store.insert(block(12, 1), Failed);
    assert_eq!(height(store.highest_trusted_or_verified()), Some(8));
    assert_eq!(height(store.latest_trusted_or_verified()), Some(8));
    assert_eq!(height(store.highest(Trusted)), Some(3));
    assert_eq!(height(store.highest(Verified)), Some(8));
    assert_eq!(height(store.highest(Unverified)), Some(9));
    assert_eq!(height(store.highest(Failed)), Some(12));
}

#[test]
fn seed_alone_is_the_latest() {
    let mut store = Store::new();
    store.insert(block(9, 1), Unverified);
    store.insert(block(3, 1), Trusted);
    assert_eq!(height(store.highest_trusted_or_verified()), Some(3));
    assert_eq!(height(store.highest(Verified)), None);
}

#[test]
fn lowest_above_a_height() {
    let mut store = Store::new();
    store.insert(block(3, 1), Verified);
    store.insert(block(5, 1), Unverified);
    store.insert(block(8, 1), Verified);
    store.insert(block(9, 1), Verified);
    assert_eq!(height(store.lowest_above(0, Verified)), Some(3));
    assert_eq!(height(store.lowest_above(3, Verified)), Some(8));
    assert_eq!(height(store.lowest_above(8, Verified)), Some(9));
    assert_eq!(height(store.lowest_above(9, Verified)), None);
    assert_eq!(height(store.lowest_above(4, Unverified)), Some(5));
    assert_eq!(height(store.lowest_above(5, Unverified)), None);
    assert_eq!(height(store.lowest_above(u64::MAX, Verified)), None);
}

#[test]
fn rollback_drops_undecided_blocks_of_one_peer() {
    let mut store = Store::new();
    store.insert(block(3, 1), Trusted);
    store.insert(block(4, 1), Unverified);
    store.insert(block(5, 2), Unverified);
    store.insert(block(6, 1), Verified);
    store.insert(block(7, 1), Failed);
    store.insert(block(8, 1), Unverified);
    store.remove_unverified_from(&peer(1));
    assert_eq!(status(&store, 3), Some(Trusted));
    assert_eq!(status(&store, 4), None);
    assert_eq!(status(&store, 5), Some(Unverified));
    assert_eq!(status(&store, 6), Some(Verified));
    assert_eq!(status(&store, 7), Some(Failed));
    assert_eq!(status(&store, 8), None);
    store.remove_unverified_from(&peer(9));
    assert_eq!(status(&store, 5), Some(Unverified));
}
