//! The smallest registry: a counter, an owner per token and a URI per token.
//! Minting assigns the successor of the counter and goes to the caller; the
//! counter restarts at 1 if it ever reaches the 32-bit limit, overwriting
//! that entry, so the tables are keyed by id rather than laid out as
//! columns. There are no transfers after minting.

use crate::tables::{
    has_key, keys_unique, lemma_key_index, lemma_push_entry, lemma_update_entry, lemma_val_at,
    val_of, AccountId,
};
use vstd::prelude::*;

verus! {

/// Notification recorded when a token is minted.
pub struct Transfer {
    pub from: Option<AccountId>,
    pub to: Option<AccountId>,
    pub token_id: u32,
}

/// The registry's whole state: the last id assigned and the two id-keyed
/// tables.
pub struct MinimalNft {
    pub token_count: u32,
    pub token_owner: Vec<(u32, AccountId)>,
    pub token_uri: Vec<(u32, String)>,
    pub events: Vec<Transfer>,
}

/// Bind `id` to `a` in an owner table, leaving every other id's binding
/// alone.
fn owner_set(s: &mut Vec<(u32, AccountId)>, id: u32, a: AccountId)
    requires
        keys_unique(old(s)@),
    ensures
        keys_unique(final(s)@),
        has_key(final(s)@, id),
        val_of(final(s)@, id) == a,
        forall|k: u32| k != id ==> #[trigger] has_key(final(s)@, k) == has_key(old(s)@, k),
        forall|k: u32|
            k != id && has_key(old(s)@, k) ==> #[trigger] val_of(final(s)@, k) == val_of(
                old(s)@,
                k,
            ),
{
    let n = s.len();
    for i in 0..n
        invariant
            n == s@.len(),
            s@ == old(s)@,
            keys_unique(s@),
            forall|j: int| 0 <= j < i ==> (#[trigger] s@[j]).0 != id,
    {
        if s[i].0 == id {
            proof {
                lemma_update_entry(s@, i as int, a);
            }
            s[i] = (id, a);
            proof {
                lemma_val_at(s@, id, i as int);
            }
            return ;
        }
    }
    proof {
        if has_key(s@, id) {
            lemma_key_index(s@, id);
        }
        lemma_push_entry(s@, id, a);
    }
    s.push((id, a));
}

/// Bind `id` to the string `u` in a URI table, leaving every other id's
/// binding alone.
fn uri_set(s: &mut Vec<(u32, String)>, id: u32, u: String)
    requires
        keys_unique(old(s)@),
    ensures
        keys_unique(final(s)@),
        has_key(final(s)@, id),
        val_of(final(s)@, id) == u,
        forall|k: u32| k != id ==> #[trigger] has_key(final(s)@, k) == has_key(old(s)@, k),
        forall|k: u32|
            k != id && has_key(old(s)@, k) ==> #[trigger] val_of(final(s)@, k) == val_of(
                old(s)@,
                k,
            ),
{
    let ghost uu = u;
    let n = s.len();
    for i in 0..n
        invariant
            n == s@.len(),
            s@ == old(s)@,
            keys_unique(s@),
            uu == u,
            forall|j: int| 0 <= j < i ==> (#[trigger] s@[j]).0 != id,
    {
        if s[i].0 == id {
            proof {
                lemma_update_entry(s@, i as int, u);
            }
            s[i] = (id, u);
            proof {
                lemma_val_at(s@, id, i as int);
            }
            return ;
        }
    }
    proof {
        if has_key(s@, id) {
            lemma_key_index(s@, id);
        }
        lemma_push_entry(s@, id, u);
    }
    s.push((id, u));
}

impl MinimalNft {
    /// The identity `token_id` is bound to, if the token was ever minted.
    pub open spec fn spec_owner_of(self, token_id: u32) -> Option<AccountId> {
        if has_key(self.token_owner@, token_id) {
            Some(val_of(self.token_owner@, token_id))
        } else {
            None
        }
    }

    /// The URI `token_id` is bound to, if the token was ever minted.
    pub open spec fn spec_uri(self, token_id: u32) -> Option<String> {
        if has_key(self.token_uri@, token_id) {
            Some(val_of(self.token_uri@, token_id))
        } else {
            None
        }
    }

    /// Well-formedness: both tables carry distinct keys, bind exactly the
    /// same ids, and never bind id 0.
    pub open spec fn wf(self) -> bool {
        &&& keys_unique(self.token_owner@)
        &&& keys_unique(self.token_uri@)
        &&& forall|id: u32|
            #[trigger] has_key(self.token_owner@, id) == has_key(self.token_uri@, id)
        &&& forall|id: u32| has_key(self.token_owner@, id) ==> 1 <= id
    }

    /// Build an empty registry.
    pub fn new() -> (r: MinimalNft)
        ensures
            r.wf(),
            r.token_count == 0,
            forall|id: u32| #[trigger] r.spec_owner_of(id) is None,
            forall|id: u32| #[trigger] r.spec_uri(id) is None,
            r.events@ == Seq::<Transfer>::empty(),
    {
        let r = MinimalNft {
            token_count: 0,
            token_owner: Vec::new(),
            token_uri: Vec::new(),
            events: Vec::new(),
        };
        proof {
            assert(r.events@ =~= Seq::<Transfer>::empty());
        }
        r
    }

    /// Mint a new token to the caller. The id assigned is the counter's
    /// successor — restarting at 1, and overwriting that token, if the
    /// counter has reached the 32-bit limit — and becomes the new counter
    /// value.
    pub fn mint(&mut self, caller: AccountId, uri: String) -> (token_id: u32)
        requires
            old(self).wf(),
        ensures
            final(self).wf(),
            token_id == (if old(self).token_count == u32::MAX {
                1int
            } else {
                old(self).token_count + 1
            }),
            final(self).token_count == token_id,
            final(self).spec_owner_of(token_id) == Some(caller),
            final(self).spec_uri(token_id) == Some(uri),
            forall|id: u32|
                id != token_id ==> #[trigger] final(self).spec_owner_of(id) == old(
                    self,
                ).spec_owner_of(id),
            forall|id: u32|
                id != token_id ==> #[trigger] final(self).spec_uri(id) == old(self).spec_uri(id),
            final(self).events@ == old(self).events@ + seq![
                Transfer { from: None, to: Some(caller), token_id },
            ],
    {
        let token_id = if self.token_count == u32::MAX {
            1
        } else {
            self.token_count + 1
        };
        owner_set(&mut self.token_owner, token_id, caller);
        uri_set(&mut self.token_uri, token_id, uri);
        self.token_count = token_id;
        self.events.push(Transfer { from: None, to: Some(caller), token_id });
        proof {
            let pre = *old(self);
            let post = *self;
            assert forall|id: u32| #[trigger] has_key(post.token_owner@, id) == has_key(
                post.token_uri@,
                id,
            ) by {
                if id != token_id {
                    assert(has_key(post.token_owner@, id) == has_key(pre.token_owner@, id));
                    assert(has_key(post.token_uri@, id) == has_key(pre.token_uri@, id));
                }
            }
            assert(post.events@ =~= pre.events@ + seq![
                Transfer { from: None, to: Some(caller), token_id },
            ]);
        }
        token_id
    }

    /// The owner of `token_id`, or nothing when it was never minted.
    pub fn owner_of(&self, token_id: u32) -> (r: Option<AccountId>)
        requires
            self.wf(),
        ensures
            r == self.spec_owner_of(token_id),
    {
        let n = self.token_owner.len();
        for i in 0..n
            invariant
                n == self.token_owner@.len(),
                keys_unique(self.token_owner@),
                forall|j: int| 0 <= j < i ==> (#[trigger] self.token_owner@[j]).0 != token_id,
        {
            if self.token_owner[i].0 == token_id {
                proof {
                    lemma_val_at(self.token_owner@, token_id, i as int);
                }
                return Some(self.token_owner[i].1);
            }
        }
        proof {
            if has_key(self.token_owner@, token_id) {
                lemma_key_index(self.token_owner@, token_id);
            }
        }
        None
    }

    /// The URI of `token_id`, or nothing when it was never minted.
    pub fn token_uri(&self, token_id: u32) -> (r: Option<String>)
        requires
            self.wf(),
        ensures
            r == self.spec_uri(token_id),
    {
        let n = self.token_uri.len();
        for i in 0..n
            invariant
                n == self.token_uri@.len(),
                keys_unique(self.token_uri@),
                forall|j: int| 0 <= j < i ==> (#[trigger] self.token_uri@[j]).0 != token_id,
        {
            if self.token_uri[i].0 == token_id {
                proof {
                    lemma_val_at(self.token_uri@, token_id, i as int);
                }
                return Some(self.token_uri[i].1.clone());
            }
        }
        proof {
            if has_key(self.token_uri@, token_id) {
                lemma_key_index(self.token_uri@, token_id);
            }
        }
        None
    }

    /// The counter's value: the id most recently assigned, and — as long as
    /// the counter has never restarted — the number of tokens minted.
    pub fn total_supply(&self) -> (r: u32)
        ensures
            r == self.token_count,
    {
        self.token_count
    }
}

impl Default for MinimalNft {
    /// The same empty registry `new` builds.
    fn default() -> (r: MinimalNft)
        ensures
            r.wf(),
            r.token_count == 0,
            forall|id: u32| #[trigger] r.spec_owner_of(id) is None,
            forall|id: u32| #[trigger] r.spec_uri(id) is None,
            r.events@ == Seq::<Transfer>::empty(),
    {
        MinimalNft::new()
    }
}

} // verus!
