use nft_registry::asset_hub_simple::AssetHubNFT;

#[test]
fn mint_and_transfer_keep_the_tables_consistent() {
    let alice: u64 = 1;
    let bob: u64 = 2;

    let mut nft = AssetHubNFT::new(String::from("Simple"), String::from("SMP"));
    assert_eq!(nft.name(), String::from("Simple"));
    assert_eq!(nft.symbol(), String::from("SMP"));

    let id = nft.mint(alice, String::from("ipfs://QmOne"));
    assert_eq!(id, 1);
    assert_eq!(nft.owner_of(id), Some(alice));
    assert_eq!(nft.token_uri(id), Some(String::from("ipfs://QmOne")));
    assert_eq!(nft.balance_of(alice), 1);
    assert_eq!(nft.tokens_of_owner(alice), vec![id]);

    assert!(nft.transfer(alice, bob, id));
    assert_eq!(nft.owner_of(id), Some(bob));
    assert_eq!(nft.balance_of(alice), 0);
    assert_eq!(nft.balance_of(bob), 1);
    assert_eq!(nft.tokens_of_owner(alice), Vec::<u32>::new());
    assert_eq!(nft.tokens_of_owner(bob), vec![id]);
    // The URI travels with the token.
    assert_eq!(nft.token_uri(id), Some(String::from("ipfs://QmOne")));
}

#[test]
fn only_the_owner_may_transfer() {
    let alice: u64 = 1;
    let bob: u64 = 2;
    let eve: u64 = 9;

    let mut nft = AssetHubNFT::new(String::from("Simple"), String::from("SMP"));
    let id = nft.mint(alice, String::from("ipfs://QmOne"));

    assert!(!nft.transfer(eve, eve, id));
    assert!(!nft.transfer(bob, bob, id));
    assert!(!nft.transfer(alice, bob, 7));
    assert_eq!(nft.owner_of(id), Some(alice));
    assert_eq!(nft.balance_of(alice), 1);
    assert_eq!(nft.events.len(), 1);
}

#[test]
fn mint_records_a_from_nobody_notification() {
    let alice: u64 = 1;

    let mut nft = AssetHubNFT::new(String::from("Simple"), String::from("SMP"));
    let id = nft.mint(alice, String::from("ipfs://QmOne"));
    assert_eq!(nft.events.len(), 1);
    assert_eq!(nft.events[0].from, None);
    assert_eq!(nft.events[0].to, Some(alice));
    assert_eq!(nft.events[0].token_id, id);
}
