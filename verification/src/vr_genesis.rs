//! The first-generation registry: sequential minting with per-token metadata
//! and owner-only transfers. It keeps an ownership column and a balance
//! table; there is no owned-token index, no approval delegation and no
//! cross-chain support.

use crate::tables::{
    bal_get, bal_of, bal_set, has_key, keys_unique, lemma_owner_count_at, lemma_owner_count_le,
    lemma_owner_count_push, lemma_owner_count_update, owner_count, AccountId,
};
use vstd::prelude::*;

verus! {

/// Notification recorded when a token is minted.
pub struct NFTMinted {
    pub owner: AccountId,
    pub token_id: u32,
    pub metadata_uri: String,
}

/// Notification recorded when a token changes owner.
pub struct Transfer {
    pub from: Option<AccountId>,
    pub to: Option<AccountId>,
    pub token_id: u32,
}

/// A token's record, set once at mint time.
pub struct NFTMetadata {
    pub metadata_uri: String,
    pub creator: AccountId,
    pub created_at: u64,
}

impl Clone for NFTMetadata {
    fn clone(&self) -> (res: Self)
        ensures
            res == *self,
    {
        NFTMetadata {
            metadata_uri: self.metadata_uri.clone(),
            creator: self.creator,
            created_at: self.created_at,
        }
    }
}

/// One entry of the registry's notification log.
pub enum Event {
    Minted(NFTMinted),
    Transferred(Transfer),
}

/// The registry's whole state. Token id `i` occupies slot `i - 1` of the
/// `token_owner` and `token_metadata` columns.
pub struct VRGenesisNFT {
    pub next_token_id: u32,
    pub token_owner: Vec<AccountId>,
    pub token_metadata: Vec<NFTMetadata>,
    pub balances: Vec<(AccountId, u32)>,
    pub name: String,
    pub symbol: String,
    pub events: Vec<Event>,
}

impl VRGenesisNFT {
    /// A token id that has been assigned: ids run from 1 to the number of
    /// slots.
    pub open spec fn spec_token_exists(self, token_id: u32) -> bool {
        1 <= token_id && token_id - 1 < self.token_owner@.len()
    }

    /// The one identity the ownership record maps `token_id` to.
    pub open spec fn spec_owner_of(self, token_id: u32) -> AccountId
        recommends
            self.spec_token_exists(token_id),
    {
        self.token_owner@[token_id - 1]
    }

    /// The token's metadata record.
    pub open spec fn spec_metadata(self, token_id: u32) -> NFTMetadata
        recommends
            self.spec_token_exists(token_id),
    {
        self.token_metadata@[token_id - 1]
    }

    /// How many tokens `a` currently owns; zero for an identity never seen.
    pub open spec fn spec_balance_of(self, a: AccountId) -> u32 {
        bal_of(self.balances@, a)
    }

    /// Well-formedness: the columns agree with the counter, the balance
    /// table carries distinct keys, and every balance equals the number of
    /// owner slots of that identity.
    pub open spec fn wf(self) -> bool {
        &&& 1 <= self.next_token_id
        &&& self.token_owner@.len() == self.next_token_id - 1
        &&& self.token_metadata@.len() == self.token_owner@.len()
        &&& keys_unique(self.balances@)
        &&& forall|a: AccountId| #[trigger] bal_of(self.balances@, a) == owner_count(
            self.token_owner@,
            a,
        )
    }

    /// Build an empty registry.
    pub fn new(name: String, symbol: String) -> (r: VRGenesisNFT)
        ensures
            r.wf(),
            r.next_token_id == 1,
            r.name == name,
            r.symbol == symbol,
            r.events@ == Seq::<Event>::empty(),
            forall|id: u32| !r.spec_token_exists(id),
            forall|a: AccountId| #[trigger] r.spec_balance_of(a) == 0,
    {
        let r = VRGenesisNFT {
            next_token_id: 1,
            token_owner: Vec::new(),
            token_metadata: Vec::new(),
            balances: Vec::new(),
            name,
            symbol,
            events: Vec::new(),
        };
        proof {
            assert forall|a: AccountId| #[trigger] bal_of(r.balances@, a) == 0 by {
                assert(!has_key(r.balances@, a));
            }
            assert(r.events@ =~= Seq::<Event>::empty());
        }
        r
    }

    /// The collection's name.
    pub fn name(&self) -> (r: String)
        ensures
            r == self.name,
    {
        self.name.clone()
    }

    /// The collection's symbol.
    pub fn symbol(&self) -> (r: String)
        ensures
            r == self.symbol,
    {
        self.symbol.clone()
    }

    /// How many tokens `owner` holds; zero for an identity never seen.
    pub fn balance_of(&self, owner: AccountId) -> (r: u32)
        requires
            self.wf(),
        ensures
            r == self.spec_balance_of(owner),
    {
        bal_get(&self.balances, owner)
    }

    /// The owner of `token_id`, or nothing when no such token exists.
    pub fn owner_of(&self, token_id: u32) -> (r: Option<AccountId>)
        ensures
            r == (if self.spec_token_exists(token_id) {
                Some(self.spec_owner_of(token_id))
            } else {
                None::<AccountId>
            }),
    {
        if 1 <= token_id && ((token_id - 1) as usize) < self.token_owner.len() {
            Some(self.token_owner[(token_id - 1) as usize])
        } else {
            None
        }
    }

    /// The token's content URI, or nothing when no such token exists.
    pub fn token_uri(&self, token_id: u32) -> (r: Option<String>)
        requires
            self.wf(),
        ensures
            r == (if self.spec_token_exists(token_id) {
                Some(self.spec_metadata(token_id).metadata_uri)
            } else {
                None::<String>
            }),
    {
        if 1 <= token_id && ((token_id - 1) as usize) < self.token_metadata.len() {
            Some(self.token_metadata[(token_id - 1) as usize].metadata_uri.clone())
        } else {
            None
        }
    }

    /// Everything a successful mint does, atomically: `token_id` is the
    /// counter's value and the counter moves up by exactly one; the new token
    /// is owned by `owner` and carries the given record; no other token
    /// changes; `owner`'s balance grows by one, every other identity
    /// untouched; and a mint and a from-nobody transfer notification are
    /// appended to the log.
    pub open spec fn mint_effect(
        pre: VRGenesisNFT,
        post: VRGenesisNFT,
        owner: AccountId,
        metadata: NFTMetadata,
        token_id: u32,
    ) -> bool {
        &&& token_id == pre.next_token_id
        &&& !pre.spec_token_exists(token_id)
        &&& post.next_token_id == pre.next_token_id + 1
        &&& post.spec_token_exists(token_id)
        &&& post.spec_owner_of(token_id) == owner
        &&& post.spec_metadata(token_id) == metadata
        &&& forall|id: u32|
            id != token_id ==> (#[trigger] post.spec_token_exists(id) <==> pre.spec_token_exists(
                id,
            ))
        &&& forall|id: u32|
            pre.spec_token_exists(id) ==> #[trigger] post.spec_owner_of(id) == pre.spec_owner_of(
                id,
            ) && post.spec_metadata(id) == pre.spec_metadata(id)
        &&& post.spec_balance_of(owner) == pre.spec_balance_of(owner) + 1
        &&& forall|a: AccountId|
            a != owner ==> #[trigger] post.spec_balance_of(a) == pre.spec_balance_of(a)
        &&& post.name == pre.name
        &&& post.symbol == pre.symbol
        &&& post.events@ == pre.events@ + seq![
            Event::Minted(NFTMinted { owner, token_id, metadata_uri: metadata.metadata_uri }),
            Event::Transferred(Transfer { from: None, to: Some(owner), token_id }),
        ]
    }

    /// Mint a new token to `owner`, with `caller` recorded as its creator and
    /// `now` as its creation time. Any caller may mint; the id assigned is
    /// the counter's current value and the counter moves up by one.
    pub fn mint_token(
        &mut self,
        caller: AccountId,
        now: u64,
        owner: AccountId,
        metadata_uri: String,
    ) -> (token_id: u32)
        requires
            old(self).wf(),
            old(self).next_token_id < u32::MAX,
        ensures
            final(self).wf(),
            Self::mint_effect(
                *old(self),
                *final(self),
                owner,
                (NFTMetadata { metadata_uri, creator: caller, created_at: now }),
                token_id,
            ),
    {
        let token_id = self.next_token_id;
        let metadata = NFTMetadata { metadata_uri, creator: caller, created_at: now };
        let minted_uri = metadata.metadata_uri.clone();
        self.token_owner.push(owner);
        self.token_metadata.push(metadata);
        let b = bal_get(&self.balances, owner);
        proof {
            lemma_owner_count_le(old(self).token_owner@, owner);
        }
        bal_set(&mut self.balances, owner, b + 1);
        self.next_token_id = token_id + 1;
        self.events.push(Event::Minted(NFTMinted { owner, token_id, metadata_uri: minted_uri }));
        self.events.push(Event::Transferred(Transfer { from: None, to: Some(owner), token_id }));
        proof {
            let pre = *old(self);
            let post = *self;
            assert(post.token_owner@ == pre.token_owner@.push(owner));
            assert forall|a: AccountId| #[trigger] bal_of(post.balances@, a) == owner_count(
                post.token_owner@,
                a,
            ) by {
                lemma_owner_count_push(pre.token_owner@, owner, a);
                if a != owner {
                    assert(bal_of(post.balances@, a) == bal_of(pre.balances@, a));
                }
            }
            assert(post.events@ =~= pre.events@ + seq![
                Event::Minted(
                    NFTMinted { owner, token_id, metadata_uri: metadata.metadata_uri },
                ),
                Event::Transferred(Transfer { from: None, to: Some(owner), token_id }),
            ]);
        }
        token_id
    }

    /// Everything a successful transfer of `token_id` to `to` does,
    /// atomically: ownership moves to `to` and no other token changes; the
    /// previous owner's balance drops by one and `to`'s grows by one, every
    /// other identity untouched; and a transfer notification is appended.
    pub open spec fn transfer_effect(
        pre: VRGenesisNFT,
        post: VRGenesisNFT,
        to: AccountId,
        token_id: u32,
    ) -> bool {
        let from = pre.spec_owner_of(token_id);
        &&& post.next_token_id == pre.next_token_id
        &&& forall|id: u32| #[trigger] post.spec_token_exists(id) <==> pre.spec_token_exists(id)
        &&& post.spec_owner_of(token_id) == to
        &&& forall|id: u32|
            id != token_id && pre.spec_token_exists(id) ==> #[trigger] post.spec_owner_of(id)
                == pre.spec_owner_of(id)
        &&& forall|id: u32|
            pre.spec_token_exists(id) ==> #[trigger] post.spec_metadata(id) == pre.spec_metadata(
                id,
            )
        &&& forall|a: AccountId|
            #[trigger] post.spec_balance_of(a) == pre.spec_balance_of(a) + (if a == to {
                1int
            } else {
                0int
            }) - (if a == from {
                1int
            } else {
                0int
            })
        &&& post.name == pre.name
        &&& post.symbol == pre.symbol
        &&& post.events@ == pre.events@ + seq![
            Event::Transferred(Transfer { from: Some(from), to: Some(to), token_id }),
        ]
    }

    /// Move `token_id` to `to`. Succeeds exactly when the token exists and
    /// the caller owns it; a failure changes nothing and is reported by the
    /// returned flag.
    pub fn transfer(&mut self, caller: AccountId, to: AccountId, token_id: u32) -> (ok: bool)
        requires
            old(self).wf(),
        ensures
            final(self).wf(),
            ok == (old(self).spec_token_exists(token_id) && old(self).spec_owner_of(token_id)
                == caller),
            !ok ==> *final(self) == *old(self),
            ok ==> Self::transfer_effect(*old(self), *final(self), to, token_id),
    {
        if token_id < 1 {
            return false;
        }
        let idx = (token_id - 1) as usize;
        if idx >= self.token_owner.len() {
            return false;
        }
        if self.token_owner[idx] != caller {
            return false;
        }
        let ghost pre = *old(self);
        let b = bal_get(&self.balances, caller);
        proof {
            lemma_owner_count_at(pre.token_owner@, caller, token_id - 1);
            lemma_owner_count_le(pre.token_owner@, to);
            assert(bal_of(pre.balances@, caller) == owner_count(pre.token_owner@, caller));
            assert(bal_of(pre.balances@, to) == owner_count(pre.token_owner@, to));
        }
        bal_set(&mut self.balances, caller, b - 1);
        let tb = bal_get(&self.balances, to);
        bal_set(&mut self.balances, to, tb + 1);
        self.token_owner[idx] = to;
        self.events.push(
            Event::Transferred(Transfer { from: Some(caller), to: Some(to), token_id }),
        );
        proof {
            let post = *self;
            assert(post.token_owner@ == pre.token_owner@.update(token_id - 1, to));
            assert forall|a: AccountId| #[trigger] bal_of(post.balances@, a) == owner_count(
                post.token_owner@,
                a,
            ) by {
                lemma_owner_count_update(pre.token_owner@, token_id - 1, to, a);
                assert(bal_of(pre.balances@, a) == owner_count(pre.token_owner@, a));
            }
            assert(post.events@ =~= pre.events@ + seq![
                Event::Transferred(Transfer { from: Some(caller), to: Some(to), token_id }),
            ]);
        }
        true
    }
}

} // verus!
