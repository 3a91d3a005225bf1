use nft_registry::minimal_nft::MinimalNft;

#[test]
fn lib_minting_works() {
    let alice: u64 = 1;

    let mut nft = MinimalNft::new();
    let token_uri = String::from("ipfs://test");

    let token_id = nft.mint(alice, token_uri.clone());
    assert_eq!(token_id, 1);
    assert_eq!(nft.total_supply(), 1);

    let owner = nft.owner_of(token_id).unwrap();
    assert_eq!(owner, alice);

    let uri = nft.token_uri(token_id).unwrap();
    assert_eq!(uri, token_uri);
}

#[test]
fn ids_follow_the_counter() {
    let alice: u64 = 1;
    let bob: u64 = 2;

    let mut nft = MinimalNft::default();
    assert_eq!(nft.total_supply(), 0);
    assert_eq!(nft.owner_of(1), None);
    assert_eq!(nft.token_uri(1), None);

    let first = nft.mint(alice, String::from("ipfs://a"));
    let second = nft.mint(bob, String::from("ipfs://b"));
    assert_eq!(first, 1);
    assert_eq!(second, 2);
    assert_eq!(nft.total_supply(), 2);
    assert_eq!(nft.owner_of(1), Some(alice));
    assert_eq!(nft.owner_of(2), Some(bob));
    assert_eq!(nft.token_uri(2), Some(String::from("ipfs://b")));
    assert_eq!(nft.owner_of(3), None);
}
