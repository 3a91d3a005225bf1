use nft_registry::asset_hub::{AssetHubNFT, Event, XCMStatus};

fn fresh(admin: u64) -> AssetHubNFT {
    AssetHubNFT::new(admin, String::from("Registry"), String::from("REG"))
}

fn plain_mint(nft: &mut AssetHubNFT, caller: u64, now: u64, owner: u64, uri: &str) -> u32 {
    nft.mint_token(
        caller,
        now,
        owner,
        String::from(uri),
        String::from("item"),
        String::from("box"),
        String::from("{}"),
    )
}

#[test]
fn first_mint_assigns_id_one() {
    let admin: u64 = 10;
    let alice: u64 = 1;

    let mut nft = fresh(admin);
    let id = plain_mint(&mut nft, alice, 0, alice, "ipfs://Qm1");
    assert_eq!(id, 1);
    assert_eq!(nft.owner_of(1), Some(alice));
    assert_eq!(nft.balance_of(alice), 1);
}

#[test]
fn transfer_by_owner_moves_the_token() {
    let admin: u64 = 10;
    let alice: u64 = 1;
    let bob: u64 = 2;

    let mut nft = fresh(admin);
    let id = plain_mint(&mut nft, alice, 0, alice, "ipfs://Qm1");
    assert!(nft.transfer(alice, bob, id));
    assert_eq!(nft.owner_of(1), Some(bob));
    assert_eq!(nft.balance_of(alice), 0);
    assert_eq!(nft.balance_of(bob), 1);
}

#[test]
fn transfer_of_missing_token_is_refused() {
    let admin: u64 = 10;
    let alice: u64 = 1;
    let bob: u64 = 2;

    let mut nft = fresh(admin);
    let id = plain_mint(&mut nft, alice, 0, alice, "ipfs://Qm1");
    // Token 99 was never minted.
    assert!(!nft.transfer(alice, bob, 99));
    // Nothing changed.
    assert_eq!(nft.owner_of(id), Some(alice));
    assert_eq!(nft.owner_of(99), None);
    assert_eq!(nft.balance_of(alice), 1);
    assert_eq!(nft.balance_of(bob), 0);
    assert_eq!(nft.tokens_of_owner(alice), vec![id]);
}

#[test]
fn unauthorized_transfer_is_a_no_op() {
    let admin: u64 = 10;
    let alice: u64 = 1;
    let bob: u64 = 2;
    let eve: u64 = 9;

    let mut nft = fresh(admin);
    let id = plain_mint(&mut nft, alice, 0, alice, "ipfs://Qm1");
    // Eve neither owns the token nor holds its approval.
    assert!(!nft.transfer(eve, eve, id));
    assert_eq!(nft.owner_of(id), Some(alice));
    assert_eq!(nft.balance_of(alice), 1);
    assert_eq!(nft.balance_of(eve), 0);
    assert_eq!(nft.tokens_of_owner(alice), vec![id]);
    assert_eq!(nft.tokens_of_owner(eve), Vec::<u32>::new());
    // The owner itself cannot be impersonated through `to` either: a failed
    // call reports failure, a successful one reports success.
    assert!(nft.transfer(alice, bob, id));
}

#[test]
fn approval_lets_the_delegate_transfer_once() {
    let admin: u64 = 10;
    let alice: u64 = 1;
    let bob: u64 = 2;
    let charlie: u64 = 3;

    let mut nft = fresh(admin);
    let id = plain_mint(&mut nft, alice, 0, alice, "ipfs://Qm1");

    // Only the owner can approve.
    assert!(!nft.approve(bob, bob, id));
    assert!(!nft.is_approved(bob, id));
    // No approval exists for a token never minted.
    assert!(!nft.approve(alice, bob, 99));

    assert!(nft.approve(alice, bob, id));
    assert!(nft.is_approved(bob, id));
    assert!(!nft.is_approved(charlie, id));

    // The delegate transfers on the owner's behalf.
    assert!(nft.transfer(bob, charlie, id));
    assert_eq!(nft.owner_of(id), Some(charlie));

    // Any successful transfer invalidates the approval.
    assert!(!nft.is_approved(bob, id));
    assert!(!nft.is_approved(alice, id));
    assert!(!nft.transfer(bob, bob, id));
}

#[test]
fn approval_is_overwritten_by_a_later_one() {
    let admin: u64 = 10;
    let alice: u64 = 1;
    let bob: u64 = 2;
    let charlie: u64 = 3;

    let mut nft = fresh(admin);
    let id = plain_mint(&mut nft, alice, 0, alice, "ipfs://Qm1");
    assert!(nft.approve(alice, bob, id));
    assert!(nft.approve(alice, charlie, id));
    assert!(!nft.is_approved(bob, id));
    assert!(nft.is_approved(charlie, id));
}

#[test]
fn ids_are_sequential_and_never_reused() {
    let admin: u64 = 10;
    let alice: u64 = 1;
    let bob: u64 = 2;

    let mut nft = fresh(admin);
    assert_eq!(plain_mint(&mut nft, alice, 0, alice, "ipfs://a"), 1);
    assert_eq!(plain_mint(&mut nft, bob, 1, bob, "ipfs://b"), 2);
    // Failed operations allocate nothing.
    assert!(!nft.transfer(bob, alice, 99));
    assert!(!nft.approve(bob, alice, 1));
    assert_eq!(plain_mint(&mut nft, alice, 2, bob, "ipfs://c"), 3);
    assert_eq!(nft.owner_of(1), Some(alice));
    assert_eq!(nft.owner_of(2), Some(bob));
    assert_eq!(nft.owner_of(3), Some(bob));
    assert_eq!(nft.owner_of(4), None);
}

#[test]
fn balances_match_the_owned_token_lists() {
    let admin: u64 = 10;
    let alice: u64 = 1;
    let bob: u64 = 2;

    let mut nft = fresh(admin);
    let a = plain_mint(&mut nft, alice, 0, alice, "ipfs://a");
    let b = plain_mint(&mut nft, alice, 1, alice, "ipfs://b");
    let c = plain_mint(&mut nft, bob, 2, bob, "ipfs://c");
    assert!(nft.transfer(alice, bob, a));
    assert!(!nft.transfer(alice, bob, c));

    for who in [alice, bob, admin] {
        assert_eq!(nft.balance_of(who) as usize, nft.tokens_of_owner(who).len());
    }
    // Insertion order: earlier holdings first, the received token appended.
    assert_eq!(nft.tokens_of_owner(alice), vec![b]);
    assert_eq!(nft.tokens_of_owner(bob), vec![c, a]);
}

#[test]
fn initiate_escrows_with_the_administrator() {
    let admin: u64 = 10;
    let alice: u64 = 1;
    let bob: u64 = 2;

    let mut nft = fresh(admin);
    let id = plain_mint(&mut nft, alice, 0, bob, "ipfs://Qm1");
    assert_eq!(nft.balance_of(bob), 1);

    // A non-administrator is refused and changes nothing.
    assert!(!nft.initiate_xcm_transfer(bob, id, 2004, [0u8; 32]));
    assert_eq!(nft.owner_of(id), Some(bob));
    assert_eq!(nft.token_metadata(id).unwrap().xcm_status, XCMStatus::NotStarted);

    // The administrator escrows the token.
    assert!(nft.initiate_xcm_transfer(admin, id, 2004, [0u8; 32]));
    assert_eq!(nft.token_metadata(id).unwrap().xcm_status, XCMStatus::InProgress);
    assert_eq!(nft.owner_of(id), Some(admin));
    assert_eq!(nft.balance_of(bob), 0);
    assert_eq!(nft.balance_of(admin), 1);
    assert_eq!(nft.tokens_of_owner(admin), vec![id]);

    // A token never minted cannot be relocated.
    assert!(!nft.initiate_xcm_transfer(admin, 99, 2004, [0u8; 32]));
}

#[test]
fn receive_is_refused_for_non_administrators() {
    let admin: u64 = 10;
    let bob: u64 = 2;
    let charlie: u64 = 3;

    let mut nft = fresh(admin);

    // A non-administrator gets the sentinel id and changes nothing.
    let refused = nft.receive_xcm_nft(
        bob,
        0,
        charlie,
        String::from("ipfs://QmFar"),
        String::from("Imported"),
        String::from("sphere"),
        String::from("{}"),
        2004,
    );
    assert_eq!(refused, 0);
    assert_eq!(nft.balance_of(charlie), 0);
    assert_eq!(nft.owner_of(1), None);

    // The administrator mints the relocated token.
    let id = nft.receive_xcm_nft(
        admin,
        7,
        charlie,
        String::from("ipfs://QmFar"),
        String::from("Imported"),
        String::from("sphere"),
        String::from("{}"),
        2004,
    );
    assert_eq!(id, 1);
    assert_eq!(nft.owner_of(id), Some(charlie));
    let metadata = nft.token_metadata(id).unwrap();
    assert_eq!(metadata.origin_chain_id, Some(2004));
    assert_eq!(metadata.xcm_status, XCMStatus::Completed);
    assert_eq!(metadata.creator, admin);
    assert_eq!(metadata.created_at, 7);
    // The sentinel never collides with a real id.
    assert_ne!(id, 0);
}

#[test]
fn metadata_is_set_once_at_mint_time() {
    let admin: u64 = 10;
    let alice: u64 = 1;
    let bob: u64 = 2;

    let mut nft = fresh(admin);
    let id = nft.mint_token(
        alice,
        99,
        bob,
        String::from("ipfs://QmMeta"),
        String::from("A Name"),
        String::from("custom"),
        String::from("{\"k\":\"v\"}"),
    );
    let m = nft.token_metadata(id).unwrap();
    assert_eq!(m.metadata_uri, String::from("ipfs://QmMeta"));
    assert_eq!(m.creator, alice);
    assert_eq!(m.created_at, 99);
    assert_eq!(m.model_type, String::from("custom"));
    assert_eq!(m.origin_chain_id, None);
    assert_eq!(m.xcm_status, XCMStatus::NotStarted);
    assert_eq!(m.properties, String::from("{\"k\":\"v\"}"));

    // A transfer leaves the record untouched.
    assert!(nft.transfer(bob, alice, id));
    let m2 = nft.token_metadata(id).unwrap();
    assert_eq!(m2.metadata_uri, String::from("ipfs://QmMeta"));
    assert_eq!(m2.creator, alice);
    assert!(nft.token_metadata(99).is_none());
    assert_eq!(nft.token_uri(99), None);
}

#[test]
fn notifications_are_recorded_in_order() {
    let admin: u64 = 10;
    let alice: u64 = 1;
    let bob: u64 = 2;

    let mut nft = fresh(admin);
    assert_eq!(nft.events.len(), 0);

    let id = plain_mint(&mut nft, alice, 0, alice, "ipfs://Qm1");
    assert_eq!(nft.events.len(), 2);
    match &nft.events[0] {
        Event::Minted(e) => {
            assert_eq!(e.owner, alice);
            assert_eq!(e.token_id, id);
            assert_eq!(e.metadata_uri, String::from("ipfs://Qm1"));
        },
        _ => panic!("expected a mint notification"),
    }
    match &nft.events[1] {
        Event::Transferred(e) => {
            assert_eq!(e.from, None);
            assert_eq!(e.to, Some(alice));
            assert_eq!(e.token_id, id);
        },
        _ => panic!("expected a transfer notification"),
    }

    // A failed call records nothing.
    assert!(!nft.transfer(bob, bob, id));
    assert_eq!(nft.events.len(), 2);

    assert!(nft.transfer(alice, bob, id));
    assert_eq!(nft.events.len(), 3);
    match &nft.events[2] {
        Event::Transferred(e) => {
            assert_eq!(e.from, Some(alice));
            assert_eq!(e.to, Some(bob));
            assert_eq!(e.token_id, id);
        },
        _ => panic!("expected a transfer notification"),
    }

    assert!(nft.initiate_xcm_transfer(admin, id, 2004, [5u8; 32]));
    assert_eq!(nft.events.len(), 4);
    match &nft.events[3] {
        Event::XcmInitiated(e) => {
            assert_eq!(e.from, bob);
            assert_eq!(e.token_id, id);
            assert_eq!(e.dest_para_id, 2004);
            assert_eq!(e.dest_account, [5u8; 32]);
        },
        _ => panic!("expected an initiation notification"),
    }
}

#[test]
fn name_and_symbol_are_fixed_at_construction() {
    let admin: u64 = 10;
    let nft = AssetHubNFT::new(admin, String::from("My Collection"), String::from("MC"));
    assert_eq!(nft.name(), String::from("My Collection"));
    assert_eq!(nft.symbol(), String::from("MC"));
    assert_eq!(nft.balance_of(admin), 0);
}

#[test]
fn transfer_to_self_keeps_the_balance() {
    let admin: u64 = 10;
    let alice: u64 = 1;

    let mut nft = fresh(admin);
    let a = plain_mint(&mut nft, alice, 0, alice, "ipfs://a");
    let b = plain_mint(&mut nft, alice, 1, alice, "ipfs://b");
    assert!(nft.transfer(alice, alice, a));
    assert_eq!(nft.balance_of(alice), 2);
    assert_eq!(nft.owner_of(a), Some(alice));
    // The moved token goes to the end of the list.
    assert_eq!(nft.tokens_of_owner(alice), vec![b, a]);
}
