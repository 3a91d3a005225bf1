#![allow(non_snake_case)]

use nft_registry::asset_hub::{AssetHubNFT, XCMStatus};

#[test]
fn AssetHubNFT_minting_works() {
    let alice: u64 = 1;

    let mut nft = AssetHubNFT::new(
        alice,
        String::from("VR Genesis Asset Hub NFT"),
        String::from("VRAH"),
    );

    // Mint a token
    let token_id = nft.mint_token(
        alice,
        0,
        alice,
        String::from("ipfs://QmMetadata"),
        String::from("3D Cube"),
        String::from("box"),
        String::from("{\"color\":\"#ff0000\",\"size\":1.0}"),
    );

    // Check that Alice is the owner
    assert_eq!(nft.owner_of(token_id), Some(alice));

    // Check the balance
    assert_eq!(nft.balance_of(alice), 1);

    // Check the token URI
    assert_eq!(nft.token_uri(token_id), Some(String::from("ipfs://QmMetadata")));

    // Check tokens of owner
    let alice_tokens = nft.tokens_of_owner(alice);
    assert_eq!(alice_tokens.len(), 1);
    assert_eq!(alice_tokens[0], token_id);
}

#[test]
fn AssetHubNFT_transfer_works() {
    let alice: u64 = 1;
    let bob: u64 = 2;

    let mut nft = AssetHubNFT::new(
        alice,
        String::from("VR Genesis Asset Hub NFT"),
        String::from("VRAH"),
    );

    // Mint a token as Alice
    let token_id = nft.mint_token(
        alice,
        0,
        alice,
        String::from("ipfs://QmMetadata"),
        String::from("3D Cube"),
        String::from("box"),
        String::from("{\"color\":\"#ff0000\",\"size\":1.0}"),
    );

    // Transfer to Bob
    assert!(nft.transfer(alice, bob, token_id));

    // Check that Bob is now the owner
    assert_eq!(nft.owner_of(token_id), Some(bob));

    // Check balances
    assert_eq!(nft.balance_of(alice), 0);
    assert_eq!(nft.balance_of(bob), 1);

    // Check tokens of owners
    let alice_tokens = nft.tokens_of_owner(alice);
    assert_eq!(alice_tokens.len(), 0);

    let bob_tokens = nft.tokens_of_owner(bob);
    assert_eq!(bob_tokens.len(), 1);
    assert_eq!(bob_tokens[0], token_id);
}

#[test]
fn xcm_operations_work() {
    let alice: u64 = 1;
    let bob: u64 = 2;
    let charlie: u64 = 3;

    let mut nft = AssetHubNFT::new(
        alice,
        String::from("VR Genesis Asset Hub NFT"),
        String::from("VRAH"),
    );

    // The contract creator is the administrator
    let admin = alice;

    // Mint a token
    let token_id = nft.mint_token(
        admin,
        0,
        bob,
        String::from("ipfs://QmMetadata"),
        String::from("3D Cube"),
        String::from("box"),
        String::from("{\"color\":\"#ff0000\",\"size\":1.0}"),
    );

    // Check that Bob is the owner
    assert_eq!(nft.owner_of(token_id), Some(bob));

    // Simulate the cross-chain transfer (admin only)
    let dest_account = [0u8; 32];
    assert!(nft.initiate_xcm_transfer(admin, token_id, 2004, dest_account));

    // Check that the admin temporarily holds the token
    assert_eq!(nft.owner_of(token_id), Some(admin));

    // Simulate receiving a token from another chain
    let received_id = nft.receive_xcm_nft(
        admin,
        0,
        charlie,
        String::from("ipfs://QmOtherChainMetadata"),
        String::from("Imported Sphere"),
        String::from("sphere"),
        String::from("{\"color\":\"#0000ff\",\"radius\":0.5}"),
        2004,
    );

    // Check that Charlie received the token
    assert_eq!(nft.owner_of(received_id), Some(charlie));

    // Check that the metadata carries the origin chain
    let metadata = nft.token_metadata(received_id).unwrap();
    assert_eq!(metadata.origin_chain_id, Some(2004));
    assert_eq!(metadata.xcm_status, XCMStatus::Completed);
}
