//! The cross-chain-capable registry: ownership, per-token metadata, approval
//! delegation, and a simulated two-phase cross-chain hand-off.
//!
//! Tokens are numbered from 1 upward in mint order; a token's slot in the
//! owner, metadata and approval columns is its id minus one. Balances and the
//! owned-token index are association tables keyed by identity, and
//! `AssetHubNFT::wf` ties all five tables together: it is established by the
//! constructor and preserved by every operation.

use crate::tables::{
    bal_get, bal_of, bal_set, has_key, keys_unique, lemma_owner_count_at, lemma_owner_count_le,
    lemma_owner_count_push, lemma_owner_count_update, lemma_push_distinct, owned_get, owned_of,
    owned_set, owner_count, remove_id, AccountId,
};
use vstd::prelude::*;

verus! {

/// Notification recorded when a token is minted.
pub struct NFTMinted {
    pub owner: AccountId,
    pub token_id: u32,
    pub metadata_uri: String,
    pub name: String,
}

/// Notification recorded when a cross-chain relocation is initiated.
pub struct XCMTransfer {
    pub from: AccountId,
    pub token_id: u32,
    pub dest_para_id: u32,
    pub dest_account: [u8; 32],
}

/// Notification recorded when a token changes owner.
pub struct Transfer {
    pub from: Option<AccountId>,
    pub to: Option<AccountId>,
    pub token_id: u32,
}

/// A token's cross-chain relocation status. `Failed` is reserved for future
/// bridge-failure handling; no operation of this registry ever sets it.
#[derive(Clone, Copy, Debug, PartialEq, Eq, Structural)]
pub enum XCMStatus {
    NotStarted,
    InProgress,
    Completed,
    Failed,
}

/// A token's record: set at mint time, with only the cross-chain fields ever
/// updated afterwards.
pub struct NFTMetadata {
    pub metadata_uri: String,
    pub creator: AccountId,
    pub created_at: u64,
    pub model_type: String,
    pub origin_chain_id: Option<u32>,
    pub xcm_status: XCMStatus,
    pub properties: String,
}

impl Clone for NFTMetadata {
    fn clone(&self) -> (res: Self)
        ensures
            res == *self,
    {
        NFTMetadata {
            metadata_uri: self.metadata_uri.clone(),
            creator: self.creator,
            created_at: self.created_at,
            model_type: self.model_type.clone(),
            origin_chain_id: self.origin_chain_id,
            xcm_status: self.xcm_status,
            properties: self.properties.clone(),
        }
    }
}

/// One entry of the registry's notification log.
pub enum Event {
    Minted(NFTMinted),
    Transferred(Transfer),
    XcmInitiated(XCMTransfer),
}

/// The registry's whole state. Token id `i` occupies slot `i - 1` of the
/// `token_owner`, `token_metadata` and `approvals` columns.
pub struct AssetHubNFT {
    pub next_token_id: u32,
    pub token_owner: Vec<AccountId>,
    pub token_metadata: Vec<NFTMetadata>,
    pub approvals: Vec<Option<AccountId>>,
    pub balances: Vec<(AccountId, u32)>,
    pub owned_tokens: Vec<(AccountId, Vec<u32>)>,
    pub name: String,
    pub symbol: String,
    pub admin: AccountId,
    pub events: Vec<Event>,
}

impl AssetHubNFT {
    /// A token id that has been assigned and not (conceptually) left: ids run
    /// from 1 to the number of slots.
    pub open spec fn spec_token_exists(self, token_id: u32) -> bool {
        1 <= token_id && token_id - 1 < self.token_owner@.len()
    }

    /// The one identity the ownership record maps `token_id` to.
    pub open spec fn spec_owner_of(self, token_id: u32) -> AccountId
        recommends
            self.spec_token_exists(token_id),
    {
        self.token_owner@[token_id - 1]
    }

    /// The token's metadata record.
    pub open spec fn spec_metadata(self, token_id: u32) -> NFTMetadata
        recommends
            self.spec_token_exists(token_id),
    {
        self.token_metadata@[token_id - 1]
    }

    /// The delegate currently approved for the token, if any.
    pub open spec fn spec_approved(self, token_id: u32) -> Option<AccountId> {
        if 1 <= token_id && token_id - 1 < self.approvals@.len() {
            self.approvals@[token_id - 1]
        } else {
            None
        }
    }

    /// Whether `operator` holds the approval entry for `token_id`.
    pub open spec fn spec_is_approved(self, operator: AccountId, token_id: u32) -> bool {
        self.spec_approved(token_id) == Some(operator)
    }

    /// How many tokens `a` currently owns; zero for an identity never seen.
    pub open spec fn spec_balance_of(self, a: AccountId) -> u32 {
        bal_of(self.balances@, a)
    }

    /// The ids `a` currently owns, in insertion order.
    pub open spec fn spec_owned(self, a: AccountId) -> Seq<u32> {
        owned_of(self.owned_tokens@, a)
    }

    /// An ordinary transfer is allowed when the token exists and the caller
    /// is its owner or its approved delegate.
    pub open spec fn transfer_allowed(self, caller: AccountId, token_id: u32) -> bool {
        self.spec_token_exists(token_id) && (self.spec_owner_of(token_id) == caller
            || self.spec_is_approved(caller, token_id))
    }

    /// Well-formedness: the columns agree with the counter, the keyed tables
    /// carry distinct keys, every balance equals the number of owner slots of
    /// that identity, and each identity's id list enumerates exactly its
    /// tokens, each once.
    pub open spec fn wf(self) -> bool {
        &&& 1 <= self.next_token_id
        &&& self.token_owner@.len() == self.next_token_id - 1
        &&& self.token_metadata@.len() == self.token_owner@.len()
        &&& self.approvals@.len() == self.token_owner@.len()
        &&& keys_unique(self.balances@)
        &&& keys_unique(self.owned_tokens@)
        &&& forall|a: AccountId| #[trigger] bal_of(self.balances@, a) == owner_count(
            self.token_owner@,
            a,
        )
        &&& forall|a: AccountId| (#[trigger] owned_of(self.owned_tokens@, a)).no_duplicates()
        &&& forall|a: AccountId| (#[trigger] owned_of(self.owned_tokens@, a)).len() == bal_of(
            self.balances@,
            a,
        )
        &&& forall|a: AccountId, token_id: u32|
            #[trigger] owned_of(self.owned_tokens@, a).contains(token_id) <==> (
            self.spec_token_exists(token_id) && self.spec_owner_of(token_id) == a)
    }

    /// Build an empty registry. The constructing caller becomes the
    /// administrator of the cross-chain operations.
    pub fn new(caller: AccountId, name: String, symbol: String) -> (r: AssetHubNFT)
        ensures
            r.wf(),
            r.next_token_id == 1,
            r.admin == caller,
            r.name == name,
            r.symbol == symbol,
            r.events@ == Seq::<Event>::empty(),
            forall|id: u32| !r.spec_token_exists(id),
            forall|a: AccountId| #[trigger] r.spec_balance_of(a) == 0,
            forall|a: AccountId| #[trigger] r.spec_owned(a) == Seq::<u32>::empty(),
    {
        let r = AssetHubNFT {
            next_token_id: 1,
            token_owner: Vec::new(),
            token_metadata: Vec::new(),
            approvals: Vec::new(),
            balances: Vec::new(),
            owned_tokens: Vec::new(),
            name,
            symbol,
            admin: caller,
            events: Vec::new(),
        };
        proof {
            assert forall|a: AccountId| #[trigger] bal_of(r.balances@, a) == 0 by {
                assert(!has_key(r.balances@, a));
            }
            assert forall|a: AccountId| #[trigger] owned_of(r.owned_tokens@, a) == Seq::<
                u32,
            >::empty() by {
                assert(!has_key(r.owned_tokens@, a));
            }
            assert(r.events@ =~= Seq::<Event>::empty());
        }
        r
    }

    /// The collection's name.
    pub fn name(&self) -> (r: String)
        ensures
            r == self.name,
    {
        self.name.clone()
    }

    /// The collection's symbol.
    pub fn symbol(&self) -> (r: String)
        ensures
            r == self.symbol,
    {
        self.symbol.clone()
    }

    /// How many tokens `owner` holds; zero for an identity never seen.
    pub fn balance_of(&self, owner: AccountId) -> (r: u32)
        requires
            self.wf(),
        ensures
            r == self.spec_balance_of(owner),
    {
        bal_get(&self.balances, owner)
    }

    /// The owner of `token_id`, or nothing when no such token exists.
    pub fn owner_of(&self, token_id: u32) -> (r: Option<AccountId>)
        ensures
            r == (if self.spec_token_exists(token_id) {
                Some(self.spec_owner_of(token_id))
            } else {
                None::<AccountId>
            }),
    {
        if 1 <= token_id && ((token_id - 1) as usize) < self.token_owner.len() {
            Some(self.token_owner[(token_id - 1) as usize])
        } else {
            None
        }
    }

    /// The token's content URI, or nothing when no such token exists.
    pub fn token_uri(&self, token_id: u32) -> (r: Option<String>)
        requires
            self.wf(),
        ensures
            r == (if self.spec_token_exists(token_id) {
                Some(self.spec_metadata(token_id).metadata_uri)
            } else {
                None::<String>
            }),
    {
        if 1 <= token_id && ((token_id - 1) as usize) < self.token_metadata.len() {
            Some(self.token_metadata[(token_id - 1) as usize].metadata_uri.clone())
        } else {
            None
        }
    }

    /// The token's whole metadata record, or nothing when no such token
    /// exists.
    pub fn token_metadata(&self, token_id: u32) -> (r: Option<NFTMetadata>)
        requires
            self.wf(),
        ensures
            r == (if self.spec_token_exists(token_id) {
                Some(self.spec_metadata(token_id))
            } else {
                None::<NFTMetadata>
            }),
    {
        if 1 <= token_id && ((token_id - 1) as usize) < self.token_metadata.len() {
            Some(self.token_metadata[(token_id - 1) as usize].clone())
        } else {
            None
        }
    }

    /// The ids `owner` holds, in insertion order; empty for an identity never
    /// seen.
    pub fn tokens_of_owner(&self, owner: AccountId) -> (r: Vec<u32>)
        requires
            self.wf(),
        ensures
            r@ == self.spec_owned(owner),
    {
        owned_get(&self.owned_tokens, owner)
    }

    /// Everything a successful mint does, atomically: `token_id` is the
    /// counter's value and the counter moves up by exactly one; the new token
    /// is owned by `owner`, carries `metadata` and no approval; no other
    /// token changes; `owner`'s balance grows by one and its id list gains
    /// `token_id` at the end, every other identity untouched; and a mint and
    /// a from-nobody transfer notification are appended to the log.
    pub open spec fn mint_effect(
        pre: AssetHubNFT,
        post: AssetHubNFT,
        owner: AccountId,
        metadata: NFTMetadata,
        display_name: String,
        token_id: u32,
    ) -> bool {
        &&& token_id == pre.next_token_id
        &&& !pre.spec_token_exists(token_id)
        &&& post.next_token_id == pre.next_token_id + 1
        &&& post.spec_token_exists(token_id)
        &&& post.spec_owner_of(token_id) == owner
        &&& post.spec_metadata(token_id) == metadata
        &&& post.spec_approved(token_id) is None
        &&& forall|id: u32|
            id != token_id ==> (#[trigger] post.spec_token_exists(id) <==> pre.spec_token_exists(
                id,
            ))
        &&& forall|id: u32|
            pre.spec_token_exists(id) ==> #[trigger] post.spec_owner_of(id) == pre.spec_owner_of(
                id,
            ) && post.spec_metadata(id) == pre.spec_metadata(id) && post.spec_approved(id)
                == pre.spec_approved(id)
        &&& post.spec_balance_of(owner) == pre.spec_balance_of(owner) + 1
        &&& forall|a: AccountId|
            a != owner ==> #[trigger] post.spec_balance_of(a) == pre.spec_balance_of(a)
        &&& post.spec_owned(owner) == pre.spec_owned(owner).push(token_id)
        &&& forall|a: AccountId| a != owner ==> #[trigger] post.spec_owned(a) == pre.spec_owned(a)
        &&& post.name == pre.name
        &&& post.symbol == pre.symbol
        &&& post.admin == pre.admin
        &&& post.events@ == pre.events@ + seq![
            Event::Minted(
                NFTMinted {
                    owner,
                    token_id,
                    metadata_uri: metadata.metadata_uri,
                    name: display_name,
                },
            ),
            Event::Transferred(Transfer { from: None, to: Some(owner), token_id }),
        ]
    }

    /// Record a fresh token under the next id: the shared tail of minting and
    /// of receiving a relocated token.
    fn mint_record(
        &mut self,
        owner: AccountId,
        metadata: NFTMetadata,
        display_name: String,
    ) -> (token_id: u32)
        requires
            old(self).wf(),
            old(self).next_token_id < u32::MAX,
        ensures
            final(self).wf(),
            Self::mint_effect(*old(self), *final(self), owner, metadata, display_name, token_id),
    {
        let token_id = self.next_token_id;
        let minted_uri = metadata.metadata_uri.clone();
        self.token_owner.push(owner);
        self.token_metadata.push(metadata);
        self.approvals.push(None);
        let b = bal_get(&self.balances, owner);
        proof {
            lemma_owner_count_le(old(self).token_owner@, owner);
        }
        bal_set(&mut self.balances, owner, b + 1);
        let mut owned = owned_get(&self.owned_tokens, owner);
        owned.push(token_id);
        owned_set(&mut self.owned_tokens, owner, owned);
        self.next_token_id = token_id + 1;
        self.events.push(
            Event::Minted(
                NFTMinted { owner, token_id, metadata_uri: minted_uri, name: display_name },
            ),
        );
        self.events.push(Event::Transferred(Transfer { from: None, to: Some(owner), token_id }));
        proof {
            let pre = *old(self);
            let post = *self;
            assert(post.token_owner@ == pre.token_owner@.push(owner));
            assert(post.spec_owner_of(token_id) == owner);
            assert forall|a: AccountId| #[trigger] bal_of(post.balances@, a) == owner_count(
                post.token_owner@,
                a,
            ) by {
                lemma_owner_count_push(pre.token_owner@, owner, a);
                if a != owner {
                    assert(bal_of(post.balances@, a) == bal_of(pre.balances@, a));
                }
            }
            assert(post.spec_owned(owner) == pre.spec_owned(owner).push(token_id));
            assert(!pre.spec_owned(owner).contains(token_id));
            assert forall|a: AccountId| (#[trigger] owned_of(
                post.owned_tokens@,
                a,
            )).no_duplicates() by {
                if a == owner {
                    let s = pre.spec_owned(owner);
                    let t = s.push(token_id);
                    assert forall|p: int, q: int|
                        0 <= p < t.len() && 0 <= q < t.len() && p != q implies t[p] != t[q] by {
                        if p < s.len() && q < s.len() {
                            assert(s.no_duplicates());
                        } else if q == s.len() {
                            assert(t[q] == token_id);
                            assert(s[p] != token_id);
                        } else {
                            assert(t[p] == token_id);
                            assert(s[q] != token_id);
                        }
                    }
                } else {
                    assert(owned_of(post.owned_tokens@, a) == owned_of(pre.owned_tokens@, a));
                }
            }
            assert forall|a: AccountId| (#[trigger] owned_of(post.owned_tokens@, a)).len()
                == bal_of(post.balances@, a) by {
                if a != owner {
                    assert(owned_of(post.owned_tokens@, a) == owned_of(pre.owned_tokens@, a));
                    assert(bal_of(post.balances@, a) == bal_of(pre.balances@, a));
                }
            }
            assert forall|a: AccountId, id: u32| #[trigger] owned_of(
                post.owned_tokens@,
                a,
            ).contains(id) <==> (post.spec_token_exists(id) && post.spec_owner_of(id) == a) by {
                if a == owner {
                    let s = pre.spec_owned(owner);
                    let t = s.push(token_id);
                    assert(owned_of(post.owned_tokens@, a) == t);
                    if id == token_id {
                        assert(t[s.len() as int] == token_id);
                        assert(t.contains(id));
                    } else {
                        assert(t.contains(id) <==> s.contains(id)) by {
                            if t.contains(id) {
                                let p = choose|p: int| 0 <= p < t.len() && t[p] == id;
                                assert(p < s.len());
                                assert(s[p] == id);
                            }
                            if s.contains(id) {
                                let p = choose|p: int| 0 <= p < s.len() && s[p] == id;
                                assert(t[p] == id);
                            }
                        }
                        assert(s.contains(id) <==> (pre.spec_token_exists(id)
                            && pre.spec_owner_of(id) == a));
                    }
                } else {
                    assert(owned_of(post.owned_tokens@, a) == owned_of(pre.owned_tokens@, a));
                    assert(owned_of(pre.owned_tokens@, a).contains(id) <==> (
                    pre.spec_token_exists(id) && pre.spec_owner_of(id) == a));
                    if id == token_id {
                        assert(!pre.spec_token_exists(id));
                        assert(post.spec_owner_of(id) == owner);
                    }
                }
            }
            assert(post.events@ =~= pre.events@ + seq![
                Event::Minted(
                    NFTMinted {
                        owner,
                        token_id,
                        metadata_uri: metadata.metadata_uri,
                        name: display_name,
                    },
                ),
                Event::Transferred(Transfer { from: None, to: Some(owner), token_id }),
            ]);
        }
        token_id
    }

    /// Mint a new token to `owner`, with `caller` recorded as its creator and
    /// `now` as its creation time. Any caller may mint; the id assigned is
    /// the counter's current value and the counter moves up by one.
    pub fn mint_token(
        &mut self,
        caller: AccountId,
        now: u64,
        owner: AccountId,
        metadata_uri: String,
        name: String,
        model_type: String,
        properties: String,
    ) -> (token_id: u32)
        requires
            old(self).wf(),
            old(self).next_token_id < u32::MAX,
        ensures
            final(self).wf(),
            Self::mint_effect(
                *old(self),
                *final(self),
                owner,
                (NFTMetadata {
                    metadata_uri,
                    creator: caller,
                    created_at: now,
                    model_type,
                    origin_chain_id: None,
                    xcm_status: XCMStatus::NotStarted,
                    properties,
                }),
                name,
                token_id,
            ),
    {
        let metadata = NFTMetadata {
            metadata_uri,
            creator: caller,
            created_at: now,
            model_type,
            origin_chain_id: None,
            xcm_status: XCMStatus::NotStarted,
            properties,
        };
        self.mint_record(owner, metadata, name)
    }

    /// Name `to` as the delegate allowed to transfer `token_id`. Succeeds
    /// exactly when the caller owns the token; a failure changes nothing.
    pub fn approve(&mut self, caller: AccountId, to: AccountId, token_id: u32) -> (ok: bool)
        requires
            old(self).wf(),
        ensures
            final(self).wf(),
            ok == (old(self).spec_token_exists(token_id) && old(self).spec_owner_of(token_id)
                == caller),
            !ok ==> *final(self) == *old(self),
            ok ==> final(self).spec_approved(token_id) == Some(to),
            ok ==> forall|id: u32|
                id != token_id ==> #[trigger] final(self).spec_approved(id) == old(
                    self,
                ).spec_approved(id),
            final(self).next_token_id == old(self).next_token_id,
            final(self).token_owner == old(self).token_owner,
            final(self).token_metadata == old(self).token_metadata,
            final(self).balances == old(self).balances,
            final(self).owned_tokens == old(self).owned_tokens,
            final(self).name == old(self).name,
            final(self).symbol == old(self).symbol,
            final(self).admin == old(self).admin,
            final(self).events == old(self).events,
    {
        if token_id < 1 {
            return false;
        }
        let idx = (token_id - 1) as usize;
        if idx >= self.token_owner.len() {
            return false;
        }
        if self.token_owner[idx] != caller {
            return false;
        }
        self.approvals[idx] = Some(to);
        proof {
            let pre = *old(self);
            let post = *self;
            assert(post.token_owner@ == pre.token_owner@);
            assert(post.balances@ == pre.balances@);
            assert(post.owned_tokens@ == pre.owned_tokens@);
        }
        true
    }

    /// Everything a successful transfer of `token_id` to `to` does,
    /// atomically: ownership moves to `to` and no other token changes; the
    /// previous owner's balance drops by one and its id list loses
    /// `token_id`, `to`'s balance grows by one and its id list gains
    /// `token_id` at the end, every other identity untouched; the token's
    /// approval entry is cleared and no other approval changes; and a
    /// transfer notification is appended to the log.
    pub open spec fn transfer_effect(
        pre: AssetHubNFT,
        post: AssetHubNFT,
        to: AccountId,
        token_id: u32,
    ) -> bool {
        let from = pre.spec_owner_of(token_id);
        let removed = pre.spec_owned(from).remove(pre.spec_owned(from).index_of(token_id));
        &&& post.next_token_id == pre.next_token_id
        &&& forall|id: u32| #[trigger] post.spec_token_exists(id) <==> pre.spec_token_exists(id)
        &&& post.spec_owner_of(token_id) == to
        &&& forall|id: u32|
            id != token_id && pre.spec_token_exists(id) ==> #[trigger] post.spec_owner_of(id)
                == pre.spec_owner_of(id)
        &&& forall|id: u32|
            pre.spec_token_exists(id) ==> #[trigger] post.spec_metadata(id) == pre.spec_metadata(
                id,
            )
        &&& post.spec_approved(token_id) is None
        &&& forall|id: u32|
            id != token_id ==> #[trigger] post.spec_approved(id) == pre.spec_approved(id)
        &&& forall|a: AccountId|
            #[trigger] post.spec_balance_of(a) == pre.spec_balance_of(a) + (if a == to {
                1int
            } else {
                0int
            }) - (if a == from {
                1int
            } else {
                0int
            })
        &&& (if from == to {
            post.spec_owned(to) == removed.push(token_id)
        } else {
            post.spec_owned(from) == removed && post.spec_owned(to) == pre.spec_owned(to).push(
                token_id,
            )
        })
        &&& forall|a: AccountId|
            a != from && a != to ==> #[trigger] post.spec_owned(a) == pre.spec_owned(a)
        &&& post.name == pre.name
        &&& post.symbol == pre.symbol
        &&& post.admin == pre.admin
        &&& post.events@ == pre.events@ + seq![
            Event::Transferred(Transfer { from: Some(from), to: Some(to), token_id }),
        ]
    }

    /// Move `token_id` to `to`. Succeeds exactly when the token exists and
    /// the caller is its owner or its approved delegate; a failure changes
    /// nothing and is reported by the returned flag.
    pub fn transfer(&mut self, caller: AccountId, to: AccountId, token_id: u32) -> (ok: bool)
        requires
            old(self).wf(),
        ensures
            final(self).wf(),
            ok == old(self).transfer_allowed(caller, token_id),
            !ok ==> *final(self) == *old(self),
            ok ==> Self::transfer_effect(*old(self), *final(self), to, token_id),
    {
        if token_id < 1 {
            return false;
        }
        let idx = (token_id - 1) as usize;
        if idx >= self.token_owner.len() {
            return false;
        }
        let owner = self.token_owner[idx];
        let approved = self.is_approved(caller, token_id);
        if owner != caller && !approved {
            return false;
        }
        let ghost pre = *old(self);
        proof {
            assert(pre.transfer_allowed(caller, token_id));
            assert(owned_of(pre.owned_tokens@, owner).contains(token_id));
        }
        // Take the token out of the current owner's list.
        let mut owned = owned_get(&self.owned_tokens, owner);
        remove_id(&mut owned, token_id);
        owned_set(&mut self.owned_tokens, owner, owned);
        let ghost removed = pre.spec_owned(owner).remove(
            pre.spec_owned(owner).index_of(token_id),
        );
        // Move a unit of balance from the current owner to the destination.
        let b = bal_get(&self.balances, owner);
        proof {
            lemma_owner_count_at(pre.token_owner@, owner, token_id - 1);
            lemma_owner_count_le(pre.token_owner@, to);
            assert(bal_of(pre.balances@, owner) == owner_count(pre.token_owner@, owner));
            assert(bal_of(pre.balances@, to) == owner_count(pre.token_owner@, to));
        }
        bal_set(&mut self.balances, owner, b - 1);
        let tb = bal_get(&self.balances, to);
        bal_set(&mut self.balances, to, tb + 1);
        // Append the token to the destination's list.
        let mut to_owned = owned_get(&self.owned_tokens, to);
        proof {
            if to != owner {
                assert(owned_of(pre.owned_tokens@, to).contains(token_id) <==> (
                pre.spec_token_exists(token_id) && pre.spec_owner_of(token_id) == to));
                assert(!owned_of(pre.owned_tokens@, to).contains(token_id));
            }
            lemma_push_distinct(to_owned@, token_id);
        }
        to_owned.push(token_id);
        owned_set(&mut self.owned_tokens, to, to_owned);
        // Reassign ownership, clear the approval, record the notification.
        self.token_owner[idx] = to;
        self.approvals[idx] = None;
        self.events.push(
            Event::Transferred(Transfer { from: Some(owner), to: Some(to), token_id }),
        );
        proof {
            let post = *self;
            assert(post.token_owner@ == pre.token_owner@.update(token_id - 1, to));
            assert(post.spec_owner_of(token_id) == to);
            assert forall|a: AccountId| #[trigger] bal_of(post.balances@, a) == owner_count(
                post.token_owner@,
                a,
            ) by {
                lemma_owner_count_update(pre.token_owner@, token_id - 1, to, a);
                assert(bal_of(pre.balances@, a) == owner_count(pre.token_owner@, a));
            }
            assert forall|a: AccountId| (#[trigger] owned_of(
                post.owned_tokens@,
                a,
            )).no_duplicates() by {
                if a != owner && a != to {
                    assert(owned_of(post.owned_tokens@, a) == owned_of(pre.owned_tokens@, a));
                }
            }
            assert forall|a: AccountId| (#[trigger] owned_of(post.owned_tokens@, a)).len()
                == bal_of(post.balances@, a) by {
                if a != owner && a != to {
                    assert(owned_of(post.owned_tokens@, a) == owned_of(pre.owned_tokens@, a));
                    assert(bal_of(post.balances@, a) == bal_of(pre.balances@, a));
                    assert(owned_of(pre.owned_tokens@, a).len() == bal_of(pre.balances@, a));
                }
            }
            assert forall|a: AccountId, id: u32| #[trigger] owned_of(
                post.owned_tokens@,
                a,
            ).contains(id) <==> (post.spec_token_exists(id) && post.spec_owner_of(id) == a) by {
                assert(owned_of(pre.owned_tokens@, a).contains(id) <==> (pre.spec_token_exists(id)
                    && pre.spec_owner_of(id) == a));
                if a == to {
                    if to == owner {
                        assert(owned_of(post.owned_tokens@, to) == removed.push(token_id));
                    } else {
                        assert(owned_of(post.owned_tokens@, to) == owned_of(
                            pre.owned_tokens@,
                            to,
                        ).push(token_id));
                    }
                } else if a == owner {
                    assert(owned_of(post.owned_tokens@, owner) == removed);
                } else {
                    assert(owned_of(post.owned_tokens@, a) == owned_of(pre.owned_tokens@, a));
                }
            }
            assert(post.events@ =~= pre.events@ + seq![
                Event::Transferred(Transfer { from: Some(owner), to: Some(to), token_id }),
            ]);
        }
        true
    }

    /// Everything a successful cross-chain initiation for `token_id` does,
    /// atomically: the token's status becomes `InProgress` and the rest of
    /// its record is kept; ownership moves to the administrator (simulated
    /// escrow) with the same balance and index bookkeeping as an ordinary
    /// transfer, but approvals are left untouched; and an initiation
    /// notification carrying the original owner and the destination is
    /// appended to the log.
    pub open spec fn xcm_initiate_effect(
        pre: AssetHubNFT,
        post: AssetHubNFT,
        token_id: u32,
        dest_para_id: u32,
        dest_account: [u8; 32],
    ) -> bool {
        let from = pre.spec_owner_of(token_id);
        let admin = pre.admin;
        let removed = pre.spec_owned(from).remove(pre.spec_owned(from).index_of(token_id));
        &&& post.next_token_id == pre.next_token_id
        &&& forall|id: u32| #[trigger] post.spec_token_exists(id) <==> pre.spec_token_exists(id)
        &&& post.spec_owner_of(token_id) == admin
        &&& forall|id: u32|
            id != token_id && pre.spec_token_exists(id) ==> #[trigger] post.spec_owner_of(id)
                == pre.spec_owner_of(id)
        &&& post.spec_metadata(token_id) == (NFTMetadata {
            xcm_status: XCMStatus::InProgress,
            ..pre.spec_metadata(token_id)
        })
        &&& forall|id: u32|
            id != token_id && pre.spec_token_exists(id) ==> #[trigger] post.spec_metadata(id)
                == pre.spec_metadata(id)
        &&& forall|id: u32| #[trigger] post.spec_approved(id) == pre.spec_approved(id)
        &&& forall|a: AccountId|
            #[trigger] post.spec_balance_of(a) == pre.spec_balance_of(a) + (if a == admin {
                1int
            } else {
                0int
            }) - (if a == from {
                1int
            } else {
                0int
            })
        &&& (if from == admin {
            post.spec_owned(admin) == removed.push(token_id)
        } else {
            post.spec_owned(from) == removed && post.spec_owned(admin) == pre.spec_owned(
                admin,
            ).push(token_id)
        })
        &&& forall|a: AccountId|
            a != from && a != admin ==> #[trigger] post.spec_owned(a) == pre.spec_owned(a)
        &&& post.name == pre.name
        &&& post.symbol == pre.symbol
        &&& post.admin == pre.admin
        &&& post.events@ == pre.events@ + seq![
            Event::XcmInitiated(XCMTransfer { from, token_id, dest_para_id, dest_account }),
        ]
    }

    /// Begin relocating `token_id` to another chain: mark it in progress,
    /// record the initiation, and escrow it under the administrator.
    /// Restricted to the administrator; succeeds exactly when the caller is
    /// the administrator and the token exists, and a failure changes nothing.
    pub fn initiate_xcm_transfer(
        &mut self,
        caller: AccountId,
        token_id: u32,
        dest_para_id: u32,
        dest_account: [u8; 32],
    ) -> (ok: bool)
        requires
            old(self).wf(),
        ensures
            final(self).wf(),
            ok == (caller == old(self).admin && old(self).spec_token_exists(token_id)),
            !ok ==> *final(self) == *old(self),
            ok ==> Self::xcm_initiate_effect(
                *old(self),
                *final(self),
                token_id,
                dest_para_id,
                dest_account,
            ),
    {
        if caller != self.admin {
            return false;
        }
        if token_id < 1 {
            return false;
        }
        let idx = (token_id - 1) as usize;
        if idx >= self.token_owner.len() {
            return false;
        }
        let owner = self.token_owner[idx];
        let admin = self.admin;
        let ghost pre = *old(self);
        // Mark the relocation as running.
        let mut metadata = self.token_metadata[idx].clone();
        metadata.xcm_status = XCMStatus::InProgress;
        self.token_metadata[idx] = metadata;
        // Record the initiation.
        self.events.push(
            Event::XcmInitiated(XCMTransfer { from: owner, token_id, dest_para_id, dest_account }),
        );
        proof {
            assert(owned_of(pre.owned_tokens@, owner).contains(token_id));
        }
        // Escrow: take the token out of the owner's list ...
        let mut owned = owned_get(&self.owned_tokens, owner);
        remove_id(&mut owned, token_id);
        owned_set(&mut self.owned_tokens, owner, owned);
        let ghost removed = pre.spec_owned(owner).remove(
            pre.spec_owned(owner).index_of(token_id),
        );
        // ... move a unit of balance from the owner to the administrator ...
        let b = bal_get(&self.balances, owner);
        proof {
            lemma_owner_count_at(pre.token_owner@, owner, token_id - 1);
            lemma_owner_count_le(pre.token_owner@, admin);
            assert(bal_of(pre.balances@, owner) == owner_count(pre.token_owner@, owner));
            assert(bal_of(pre.balances@, admin) == owner_count(pre.token_owner@, admin));
        }
        bal_set(&mut self.balances, owner, b - 1);
        let ab = bal_get(&self.balances, admin);
        bal_set(&mut self.balances, admin, ab + 1);
        // ... append it to the administrator's list, and reassign ownership.
        let mut admin_owned = owned_get(&self.owned_tokens, admin);
        proof {
            if admin != owner {
                assert(owned_of(pre.owned_tokens@, admin).contains(token_id) <==> (
                pre.spec_token_exists(token_id) && pre.spec_owner_of(token_id) == admin));
                assert(!owned_of(pre.owned_tokens@, admin).contains(token_id));
            }
            lemma_push_distinct(admin_owned@, token_id);
        }
        admin_owned.push(token_id);
        owned_set(&mut self.owned_tokens, admin, admin_owned);
        self.token_owner[idx] = admin;
        proof {
            let post = *self;
            assert(post.token_owner@ == pre.token_owner@.update(token_id - 1, admin));
            assert(post.spec_owner_of(token_id) == admin);
            assert forall|a: AccountId| #[trigger] bal_of(post.balances@, a) == owner_count(
                post.token_owner@,
                a,
            ) by {
                lemma_owner_count_update(pre.token_owner@, token_id - 1, admin, a);
                assert(bal_of(pre.balances@, a) == owner_count(pre.token_owner@, a));
            }
            assert forall|a: AccountId| (#[trigger] owned_of(
                post.owned_tokens@,
                a,
            )).no_duplicates() by {
                if a != owner && a != admin {
                    assert(owned_of(post.owned_tokens@, a) == owned_of(pre.owned_tokens@, a));
                }
            }
            assert forall|a: AccountId| (#[trigger] owned_of(post.owned_tokens@, a)).len()
                == bal_of(post.balances@, a) by {
                if a != owner && a != admin {
                    assert(owned_of(post.owned_tokens@, a) == owned_of(pre.owned_tokens@, a));
                    assert(bal_of(post.balances@, a) == bal_of(pre.balances@, a));
                    assert(owned_of(pre.owned_tokens@, a).len() == bal_of(pre.balances@, a));
                }
            }
            assert forall|a: AccountId, id: u32| #[trigger] owned_of(
                post.owned_tokens@,
                a,
            ).contains(id) <==> (post.spec_token_exists(id) && post.spec_owner_of(id) == a) by {
                assert(owned_of(pre.owned_tokens@, a).contains(id) <==> (pre.spec_token_exists(id)
                    && pre.spec_owner_of(id) == a));
                if a == admin {
                    if admin == owner {
                        assert(owned_of(post.owned_tokens@, admin) == removed.push(token_id));
                    } else {
                        assert(owned_of(post.owned_tokens@, admin) == owned_of(
                            pre.owned_tokens@,
                            admin,
                        ).push(token_id));
                    }
                } else if a == owner {
                    assert(owned_of(post.owned_tokens@, owner) == removed);
                } else {
                    assert(owned_of(post.owned_tokens@, a) == owned_of(pre.owned_tokens@, a));
                }
            }
            assert(post.events@ =~= pre.events@ + seq![
                Event::XcmInitiated(
                    XCMTransfer { from: owner, token_id, dest_para_id, dest_account },
                ),
            ]);
        }
        true
    }

    /// Record the arrival of a token relocated from another chain: mint a
    /// fresh token to `destination` with the administrator as its recorded
    /// creator, the supplied origin chain, and status `Completed`.
    /// Restricted to the administrator; any other caller gets the sentinel id
    /// 0 and changes nothing. A real token id (at least 1) is returned on
    /// success.
    pub fn receive_xcm_nft(
        &mut self,
        caller: AccountId,
        now: u64,
        to: AccountId,
        metadata_uri: String,
        name: String,
        model_type: String,
        properties: String,
        origin_chain_id: u32,
    ) -> (token_id: u32)
        requires
            old(self).wf(),
            caller == old(self).admin ==> old(self).next_token_id < u32::MAX,
        ensures
            final(self).wf(),
            caller != old(self).admin ==> token_id == 0 && *final(self) == *old(self),
            caller == old(self).admin ==> 1 <= token_id && Self::mint_effect(
                *old(self),
                *final(self),
                to,
                (NFTMetadata {
                    metadata_uri,
                    creator: old(self).admin,
                    created_at: now,
                    model_type,
                    origin_chain_id: Some(origin_chain_id),
                    xcm_status: XCMStatus::Completed,
                    properties,
                }),
                name,
                token_id,
            ),
    {
        if caller != self.admin {
            return 0;
        }
        let creator = self.admin;
        let metadata = NFTMetadata {
            metadata_uri,
            creator,
            created_at: now,
            model_type,
            origin_chain_id: Some(origin_chain_id),
            xcm_status: XCMStatus::Completed,
            properties,
        };
        self.mint_record(to, metadata, name)
    }

    /// Whether `operator` is the approved delegate for `token_id`.
    pub fn is_approved(&self, operator: AccountId, token_id: u32) -> (r: bool)
        ensures
            r == self.spec_is_approved(operator, token_id),
    {
        if 1 <= token_id && ((token_id - 1) as usize) < self.approvals.len() {
            match self.approvals[(token_id - 1) as usize] {
                Some(approved) => approved == operator,
                None => false,
            }
        } else {
            false
        }
    }
}

/// Sequential id allocation: in a well-formed registry the existing token
/// ids are exactly 1 through `next_token_id - 1`, with no gap and no reuse.
/// Together with the mint contract — the id assigned is `next_token_id`, the
/// counter then moves up by exactly one, and nothing else allocates — a run
/// of N successful mints on a fresh registry assigns exactly the ids 1
/// through N, in call order.
pub proof fn lemma_sequential_ids(r: AssetHubNFT)
    requires
        r.wf(),
    ensures
        forall|id: u32| #[trigger] r.spec_token_exists(id) <==> (1 <= id && id < r.next_token_id),
{
}

/// Balance and index consistency: for every identity, its balance equals the
/// length of its owned-token list, and that list enumerates exactly the
/// existing tokens whose owner it is, so the balance also equals the number
/// of such tokens.
pub proof fn lemma_balance_index_consistent(r: AssetHubNFT, a: AccountId)
    requires
        r.wf(),
    ensures
        r.spec_balance_of(a) == r.spec_owned(a).len(),
        r.spec_owned(a).to_set() == Set::new(
            |id: u32| r.spec_token_exists(id) && r.spec_owner_of(id) == a,
        ),
        r.spec_balance_of(a) == r.spec_owned(a).to_set().len(),
{
    let owned = r.spec_owned(a);
    owned.unique_seq_to_set();
    assert forall|id: u32|
        owned.to_set().contains(id) <==> (r.spec_token_exists(id) && r.spec_owner_of(id)
            == a) by {
        assert(owned.contains(id) <==> (r.spec_token_exists(id) && r.spec_owner_of(id) == a));
    }
    assert(owned.to_set() =~= Set::new(
        |id: u32| r.spec_token_exists(id) && r.spec_owner_of(id) == a,
    ));
}

/// Ownership uniqueness: an existing token has exactly one owner — the one
/// the ownership record maps it to; that owner's id list carries the token
/// exactly once (it appears, and the list holds no duplicates), and no other
/// identity's list carries it at all.
pub proof fn lemma_ownership_unique(r: AssetHubNFT, token_id: u32)
    requires
        r.wf(),
        r.spec_token_exists(token_id),
    ensures
        r.spec_owned(r.spec_owner_of(token_id)).contains(token_id),
        r.spec_owned(r.spec_owner_of(token_id)).no_duplicates(),
        forall|a: AccountId|
            a != r.spec_owner_of(token_id) ==> !(#[trigger] r.spec_owned(a)).contains(token_id),
{
    let owner = r.spec_owner_of(token_id);
    assert(owned_of(r.owned_tokens@, owner).contains(token_id));
    assert forall|a: AccountId| a != owner implies !(#[trigger] r.spec_owned(a)).contains(
        token_id,
    ) by {
        assert(owned_of(r.owned_tokens@, a).contains(token_id) <==> (r.spec_token_exists(token_id)
            && r.spec_owner_of(token_id) == a));
    }
}

} // verus!
