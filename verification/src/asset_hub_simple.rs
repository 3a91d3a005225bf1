//! The reduced registry: sequential minting with a bare content URI per
//! token, an owned-token index, and owner-only transfers. There is no
//! metadata record beyond the URI, no approval delegation and no cross-chain
//! support; the only notification is the transfer one.

use crate::tables::{
    bal_get, bal_of, bal_set, has_key, keys_unique, lemma_owner_count_at, lemma_owner_count_le,
    lemma_owner_count_push, lemma_owner_count_update, lemma_push_distinct, owned_get, owned_of,
    owned_set, owner_count, remove_id, AccountId,
};
use vstd::prelude::*;

verus! {

/// Notification recorded when a token is minted or changes owner.
pub struct Transfer {
    pub from: Option<AccountId>,
    pub to: Option<AccountId>,
    pub token_id: u32,
}

/// The registry's whole state. Token id `i` occupies slot `i - 1` of the
/// `token_owner` and `token_uri` columns.
pub struct AssetHubNFT {
    pub next_token_id: u32,
    pub token_owner: Vec<AccountId>,
    pub token_uri: Vec<String>,
    pub balances: Vec<(AccountId, u32)>,
    pub owned_tokens: Vec<(AccountId, Vec<u32>)>,
    pub name: String,
    pub symbol: String,
    pub events: Vec<Transfer>,
}

impl AssetHubNFT {
    /// A token id that has been assigned: ids run from 1 to the number of
    /// slots.
    pub open spec fn spec_token_exists(self, token_id: u32) -> bool {
        1 <= token_id && token_id - 1 < self.token_owner@.len()
    }

    /// The one identity the ownership record maps `token_id` to.
    pub open spec fn spec_owner_of(self, token_id: u32) -> AccountId
        recommends
            self.spec_token_exists(token_id),
    {
        self.token_owner@[token_id - 1]
    }

    /// The token's content URI.
    pub open spec fn spec_uri(self, token_id: u32) -> String
        recommends
            self.spec_token_exists(token_id),
    {
        self.token_uri@[token_id - 1]
    }

    /// How many tokens `a` currently owns; zero for an identity never seen.
    pub open spec fn spec_balance_of(self, a: AccountId) -> u32 {
        bal_of(self.balances@, a)
    }

    /// The ids `a` currently owns, in insertion order.
    pub open spec fn spec_owned(self, a: AccountId) -> Seq<u32> {
        owned_of(self.owned_tokens@, a)
    }

    /// Well-formedness: the columns agree with the counter, the keyed tables
    /// carry distinct keys, every balance equals the number of owner slots of
    /// that identity, and each identity's id list enumerates exactly its
    /// tokens, each once.
    pub open spec fn wf(self) -> bool {
        &&& 1 <= self.next_token_id
        &&& self.token_owner@.len() == self.next_token_id - 1
        &&& self.token_uri@.len() == self.token_owner@.len()
        &&& keys_unique(self.balances@)
        &&& keys_unique(self.owned_tokens@)
        &&& forall|a: AccountId| #[trigger] bal_of(self.balances@, a) == owner_count(
            self.token_owner@,
            a,
        )
        &&& forall|a: AccountId| (#[trigger] owned_of(self.owned_tokens@, a)).no_duplicates()
        &&& forall|a: AccountId| (#[trigger] owned_of(self.owned_tokens@, a)).len() == bal_of(
            self.balances@,
            a,
        )
        &&& forall|a: AccountId, token_id: u32|
            #[trigger] owned_of(self.owned_tokens@, a).contains(token_id) <==> (
            self.spec_token_exists(token_id) && self.spec_owner_of(token_id) == a)
    }

    /// Build an empty registry.
    pub fn new(name: String, symbol: String) -> (r: AssetHubNFT)
        ensures
            r.wf(),
            r.next_token_id == 1,
            r.name == name,
            r.symbol == symbol,
            r.events@ == Seq::<Transfer>::empty(),
            forall|id: u32| !r.spec_token_exists(id),
            forall|a: AccountId| #[trigger] r.spec_balance_of(a) == 0,
            forall|a: AccountId| #[trigger] r.spec_owned(a) == Seq::<u32>::empty(),
    {
        let r = AssetHubNFT {
            next_token_id: 1,
            token_owner: Vec::new(),
            token_uri: Vec::new(),
            balances: Vec::new(),
            owned_tokens: Vec::new(),
            name,
            symbol,
            events: Vec::new(),
        };
        proof {
            assert forall|a: AccountId| #[trigger] bal_of(r.balances@, a) == 0 by {
                assert(!has_key(r.balances@, a));
            }
            assert forall|a: AccountId| #[trigger] owned_of(r.owned_tokens@, a) == Seq::<
                u32,
            >::empty() by {
                assert(!has_key(r.owned_tokens@, a));
            }
            assert(r.events@ =~= Seq::<Transfer>::empty());
        }
        r
    }

    /// The collection's name.
    pub fn name(&self) -> (r: String)
        ensures
            r == self.name,
    {
        self.name.clone()
    }

    /// The collection's symbol.
    pub fn symbol(&self) -> (r: String)
        ensures
            r == self.symbol,
    {
        self.symbol.clone()
    }

    /// How many tokens `owner` holds; zero for an identity never seen.
    pub fn balance_of(&self, owner: AccountId) -> (r: u32)
        requires
            self.wf(),
        ensures
            r == self.spec_balance_of(owner),
    {
        bal_get(&self.balances, owner)
    }

    /// The owner of `token_id`, or nothing when no such token exists.
    pub fn owner_of(&self, token_id: u32) -> (r: Option<AccountId>)
        ensures
            r == (if self.spec_token_exists(token_id) {
                Some(self.spec_owner_of(token_id))
            } else {
                None::<AccountId>
            }),
    {
        if 1 <= token_id && ((token_id - 1) as usize) < self.token_owner.len() {
            Some(self.token_owner[(token_id - 1) as usize])
        } else {
            None
        }
    }

    /// The ids `owner` holds, in insertion order; empty for an identity never
    /// seen.
    pub fn tokens_of_owner(&self, owner: AccountId) -> (r: Vec<u32>)
        requires
            self.wf(),
        ensures
            r@ == self.spec_owned(owner),
    {
        owned_get(&self.owned_tokens, owner)
    }

    /// The token's content URI, or nothing when no such token exists.
    pub fn token_uri(&self, token_id: u32) -> (r: Option<String>)
        requires
            self.wf(),
        ensures
            r == (if self.spec_token_exists(token_id) {
                Some(self.spec_uri(token_id))
            } else {
                None::<String>
            }),
    {
        if 1 <= token_id && ((token_id - 1) as usize) < self.token_uri.len() {
            Some(self.token_uri[(token_id - 1) as usize].clone())
        } else {
            None
        }
    }

    /// Everything a successful mint does, atomically: `token_id` is the
    /// counter's value and the counter moves up by exactly one; the new token
    /// is owned by `to` and carries `uri`; no other token changes; `to`'s
    /// balance grows by one and its id list gains `token_id` at the end,
    /// every other identity untouched; and a from-nobody transfer
    /// notification is appended to the log.
    pub open spec fn mint_effect(
        pre: AssetHubNFT,
        post: AssetHubNFT,
        to: AccountId,
        uri: String,
        token_id: u32,
    ) -> bool {
        &&& token_id == pre.next_token_id
        &&& !pre.spec_token_exists(token_id)
        &&& post.next_token_id == pre.next_token_id + 1
        &&& post.spec_token_exists(token_id)
        &&& post.spec_owner_of(token_id) == to
        &&& post.spec_uri(token_id) == uri
        &&& forall|id: u32|
            id != token_id ==> (#[trigger] post.spec_token_exists(id) <==> pre.spec_token_exists(
                id,
            ))
        &&& forall|id: u32|
            pre.spec_token_exists(id) ==> #[trigger] post.spec_owner_of(id) == pre.spec_owner_of(
                id,
            ) && post.spec_uri(id) == pre.spec_uri(id)
        &&& post.spec_balance_of(to) == pre.spec_balance_of(to) + 1
        &&& forall|a: AccountId|
            a != to ==> #[trigger] post.spec_balance_of(a) == pre.spec_balance_of(a)
        &&& post.spec_owned(to) == pre.spec_owned(to).push(token_id)
        &&& forall|a: AccountId| a != to ==> #[trigger] post.spec_owned(a) == pre.spec_owned(a)
        &&& post.name == pre.name
        &&& post.symbol == pre.symbol
        &&& post.events@ == pre.events@ + seq![
            Transfer { from: None, to: Some(to), token_id },
        ]
    }

    /// Mint a new token to `to` under the given content URI. Any caller may
    /// mint; the id assigned is the counter's current value and the counter
    /// moves up by one.
    pub fn mint(&mut self, to: AccountId, uri: String) -> (token_id: u32)
        requires
            old(self).wf(),
            old(self).next_token_id < u32::MAX,
        ensures
            final(self).wf(),
            Self::mint_effect(*old(self), *final(self), to, uri, token_id),
    {
        let token_id = self.next_token_id;
        self.token_owner.push(to);
        self.token_uri.push(uri);
        let b = bal_get(&self.balances, to);
        proof {
            lemma_owner_count_le(old(self).token_owner@, to);
        }
        bal_set(&mut self.balances, to, b + 1);
        let mut owned = owned_get(&self.owned_tokens, to);
        owned.push(token_id);
        owned_set(&mut self.owned_tokens, to, owned);
        self.next_token_id = token_id + 1;
        self.events.push(Transfer { from: None, to: Some(to), token_id });
        proof {
            let pre = *old(self);
            let post = *self;
            assert(post.token_owner@ == pre.token_owner@.push(to));
            assert forall|a: AccountId| #[trigger] bal_of(post.balances@, a) == owner_count(
                post.token_owner@,
                a,
            ) by {
                lemma_owner_count_push(pre.token_owner@, to, a);
                if a != to {
                    assert(bal_of(post.balances@, a) == bal_of(pre.balances@, a));
                }
            }
            assert(post.spec_owned(to) == pre.spec_owned(to).push(token_id));
            assert(!pre.spec_owned(to).contains(token_id));
            lemma_push_distinct(pre.spec_owned(to), token_id);
            assert forall|a: AccountId| (#[trigger] owned_of(
                post.owned_tokens@,
                a,
            )).no_duplicates() by {
                if a != to {
                    assert(owned_of(post.owned_tokens@, a) == owned_of(pre.owned_tokens@, a));
                }
            }
            assert forall|a: AccountId| (#[trigger] owned_of(post.owned_tokens@, a)).len()
                == bal_of(post.balances@, a) by {
                if a != to {
                    assert(owned_of(post.owned_tokens@, a) == owned_of(pre.owned_tokens@, a));
                    assert(bal_of(post.balances@, a) == bal_of(pre.balances@, a));
                    assert(owned_of(pre.owned_tokens@, a).len() == bal_of(pre.balances@, a));
                }
            }
            assert forall|a: AccountId, id: u32| #[trigger] owned_of(
                post.owned_tokens@,
                a,
            ).contains(id) <==> (post.spec_token_exists(id) && post.spec_owner_of(id) == a) by {
                assert(owned_of(pre.owned_tokens@, a).contains(id) <==> (pre.spec_token_exists(id)
                    && pre.spec_owner_of(id) == a));
                if a == to {
                    assert(owned_of(post.owned_tokens@, to) == pre.spec_owned(to).push(token_id));
                } else {
                    assert(owned_of(post.owned_tokens@, a) == owned_of(pre.owned_tokens@, a));
                    if id == token_id {
                        assert(!pre.spec_token_exists(id));
                        assert(post.spec_owner_of(id) == to);
                    }
                }
            }
            assert(post.events@ =~= pre.events@ + seq![
                Transfer { from: None, to: Some(to), token_id },
            ]);
        }
        token_id
    }

    /// Everything a successful transfer of `token_id` to `to` does,
    /// atomically: ownership moves to `to` and no other token changes; the
    /// previous owner's balance drops by one and its id list loses
    /// `token_id`, `to`'s balance grows by one and its id list gains
    /// `token_id` at the end, every other identity untouched; and a transfer
    /// notification is appended to the log.
    pub open spec fn transfer_effect(
        pre: AssetHubNFT,
        post: AssetHubNFT,
        to: AccountId,
        token_id: u32,
    ) -> bool {
        let from = pre.spec_owner_of(token_id);
        let removed = pre.spec_owned(from).remove(pre.spec_owned(from).index_of(token_id));
        &&& post.next_token_id == pre.next_token_id
        &&& forall|id: u32| #[trigger] post.spec_token_exists(id) <==> pre.spec_token_exists(id)
        &&& post.spec_owner_of(token_id) == to
        &&& forall|id: u32|
            id != token_id && pre.spec_token_exists(id) ==> #[trigger] post.spec_owner_of(id)
                == pre.spec_owner_of(id)
        &&& forall|id: u32|
            pre.spec_token_exists(id) ==> #[trigger] post.spec_uri(id) == pre.spec_uri(id)
        &&& forall|a: AccountId|
            #[trigger] post.spec_balance_of(a) == pre.spec_balance_of(a) + (if a == to {
                1int
            } else {
                0int
            }) - (if a == from {
                1int
            } else {
                0int
            })
        &&& (if from == to {
            post.spec_owned(to) == removed.push(token_id)
        } else {
            post.spec_owned(from) == removed && post.spec_owned(to) == pre.spec_owned(to).push(
                token_id,
            )
        })
        &&& forall|a: AccountId|
            a != from && a != to ==> #[trigger] post.spec_owned(a) == pre.spec_owned(a)
        &&& post.name == pre.name
        &&& post.symbol == pre.symbol
        &&& post.events@ == pre.events@ + seq![
            Transfer { from: Some(from), to: Some(to), token_id },
        ]
    }

    /// Move `token_id` to `to`. Succeeds exactly when the token exists and
    /// the caller owns it; a failure changes nothing and is reported by the
    /// returned flag.
    pub fn transfer(&mut self, caller: AccountId, to: AccountId, token_id: u32) -> (ok: bool)
        requires
            old(self).wf(),
        ensures
            final(self).wf(),
            ok == (old(self).spec_token_exists(token_id) && old(self).spec_owner_of(token_id)
                == caller),
            !ok ==> *final(self) == *old(self),
            ok ==> Self::transfer_effect(*old(self), *final(self), to, token_id),
    {
        if token_id < 1 {
            return false;
        }
        let idx = (token_id - 1) as usize;
        if idx >= self.token_owner.len() {
            return false;
        }
        let owner = self.token_owner[idx];
        if owner != caller {
            return false;
        }
        let ghost pre = *old(self);
        proof {
            assert(owned_of(pre.owned_tokens@, owner).contains(token_id));
        }
        // Take the token out of the current owner's list.
        let mut owned = owned_get(&self.owned_tokens, owner);
        remove_id(&mut owned, token_id);
        owned_set(&mut self.owned_tokens, owner, owned);
        let ghost removed = pre.spec_owned(owner).remove(
            pre.spec_owned(owner).index_of(token_id),
        );
        // Move a unit of balance from the owner to the destination.
        let b = bal_get(&self.balances, owner);
        proof {
            lemma_owner_count_at(pre.token_owner@, owner, token_id - 1);
            lemma_owner_count_le(pre.token_owner@, to);
            assert(bal_of(pre.balances@, owner) == owner_count(pre.token_owner@, owner));
            assert(bal_of(pre.balances@, to) == owner_count(pre.token_owner@, to));
        }
        bal_set(&mut self.balances, owner, b - 1);
        let tb = bal_get(&self.balances, to);
        bal_set(&mut self.balances, to, tb + 1);
        // Append the token to the destination's list and reassign ownership.
        let mut to_owned = owned_get(&self.owned_tokens, to);
        proof {
            if to != owner {
                assert(owned_of(pre.owned_tokens@, to).contains(token_id) <==> (
                pre.spec_token_exists(token_id) && pre.spec_owner_of(token_id) == to));
                assert(!owned_of(pre.owned_tokens@, to).contains(token_id));
            }
            lemma_push_distinct(to_owned@, token_id);
        }
        to_owned.push(token_id);
        owned_set(&mut self.owned_tokens, to, to_owned);
        self.token_owner[idx] = to;
        self.events.push(Transfer { from: Some(owner), to: Some(to), token_id });
        proof {
            let post = *self;
            assert(post.token_owner@ == pre.token_owner@.update(token_id - 1, to));
            assert(post.spec_owner_of(token_id) == to);
            assert forall|a: AccountId| #[trigger] bal_of(post.balances@, a) == owner_count(
                post.token_owner@,
                a,
            ) by {
                lemma_owner_count_update(pre.token_owner@, token_id - 1, to, a);
                assert(bal_of(pre.balances@, a) == owner_count(pre.token_owner@, a));
            }
            assert forall|a: AccountId| (#[trigger] owned_of(
                post.owned_tokens@,
                a,
            )).no_duplicates() by {
                if a != owner && a != to {
                    assert(owned_of(post.owned_tokens@, a) == owned_of(pre.owned_tokens@, a));
                }
            }
            assert forall|a: AccountId| (#[trigger] owned_of(post.owned_tokens@, a)).len()
                == bal_of(post.balances@, a) by {
                if a != owner && a != to {
                    assert(owned_of(post.owned_tokens@, a) == owned_of(pre.owned_tokens@, a));
                    assert(bal_of(post.balances@, a) == bal_of(pre.balances@, a));
                    assert(owned_of(pre.owned_tokens@, a).len() == bal_of(pre.balances@, a));
                }
            }
            assert forall|a: AccountId, id: u32| #[trigger] owned_of(
                post.owned_tokens@,
                a,
            ).contains(id) <==> (post.spec_token_exists(id) && post.spec_owner_of(id) == a) by {
                assert(owned_of(pre.owned_tokens@, a).contains(id) <==> (pre.spec_token_exists(id)
                    && pre.spec_owner_of(id) == a));
                if a == to {
                    if to == owner {
                        assert(owned_of(post.owned_tokens@, to) == removed.push(token_id));
                    } else {
                        assert(owned_of(post.owned_tokens@, to) == owned_of(
                            pre.owned_tokens@,
                            to,
                        ).push(token_id));
                    }
                } else if a == owner {
                    assert(owned_of(post.owned_tokens@, owner) == removed);
                } else {
                    assert(owned_of(post.owned_tokens@, a) == owned_of(pre.owned_tokens@, a));
                }
            }
            assert(post.events@ =~= pre.events@ + seq![
                Transfer { from: Some(owner), to: Some(to), token_id },
            ]);
        }
        true
    }
}

} // verus!
