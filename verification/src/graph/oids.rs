use super::{AliasId, CommitAlias};
use crate::sync::CommitId;
use std::collections::HashMap;
use vstd::prelude::*;

verus! {

/// `HashMap::get` on the commit-id map, the alias copied out.
///
/// `CommitId` derives `Eq` and `Hash` over its bytes, so the map finds an id
/// exactly when an equal id was inserted: the result is the alias stored for
/// `id`, `None` if there is none. (vstd states std's map contracts only for
/// key types it knows to hash consistently, which a derived `Hash` of this
/// crate cannot show to it; hence the contracts on these few calls.)
#[verifier::external_body]
fn id_map_get(map: &HashMap<CommitId, CommitAlias>, id: &CommitId) -> (r: Option<CommitAlias>)
    ensures
        r == if map@.contains_key(*id) {
            Some(map@[*id])
        } else {
            None::<CommitAlias>
        },
{
    map.get(id).copied()
}

/// `HashMap::insert` on the commit-id map: afterwards `id` maps to `alias`
/// and every other entry is unchanged.
#[verifier::external_body]
fn id_map_insert(map: &mut HashMap<CommitId, CommitAlias>, id: CommitId, alias: CommitAlias)
    ensures
        final(map)@ == old(map)@.insert(id, alias),
{
    map.insert(id, alias);
}

/// `HashMap::len` on the commit-id map: the number of distinct ids in it.
#[verifier::external_body]
fn id_map_len(map: &HashMap<CommitId, CommitAlias>) -> (r: usize)
    ensures
        r == map@.len(),
{
    map.len()
}

/// mapping of `CommitId` to a numeric alias
pub struct GraphOids(pub HashMap<CommitId, CommitAlias>);

impl View for GraphOids {
    type V = Map<CommitId, CommitAlias>;

    open spec fn view(&self) -> Map<CommitId, CommitAlias> {
        self.0@
    }
}

/// The map once `id` has an alias: unchanged if it had one, else with the
/// next dense alias added for it.
pub open spec fn with_alias(m: Map<CommitId, CommitAlias>, id: CommitId) -> Map<CommitId, CommitAlias> {
    if m.contains_key(id) {
        m
    } else {
        m.insert(id, AliasId(m.len() as usize))
    }
}

/// Some id of `m` carries the alias `n`.
pub open spec fn alias_taken(m: Map<CommitId, CommitAlias>, n: usize) -> bool {
    exists|id: CommitId| #[trigger] m.contains_key(id) && m[id] == AliasId(n)
}

impl GraphOids {
    /// Aliases are dense and distinct: the ids of a map of `n` entries carry
    /// exactly the aliases `0..n`, one each.
    pub open spec fn wf(&self) -> bool {
        &&& self@.dom().finite()
        &&& forall|id: CommitId| #[trigger] self@.contains_key(id) ==> self@[id].0 < self@.len()
        &&& forall|a: CommitId, b: CommitId|
            #[trigger] self@.contains_key(a) && #[trigger] self@.contains_key(b) && self@[a]
                == self@[b] ==> a == b
        &&& forall|n: usize| n < self@.len() ==> #[trigger] alias_taken(self@, n)
    }

    /// Create an empty alias map.
    pub fn new() -> (r: Self)
        ensures
            r.wf(),
            r@ == Map::<CommitId, CommitAlias>::empty(),
    {
        GraphOids(HashMap::new())
    }

    /// Get the alias for `id`, assigning a new one if it doesn't exist yet.
    pub fn get_or_insert(&mut self, id: &CommitId) -> (alias: CommitAlias)
        requires
            old(self).wf(),
        ensures
            final(self).wf(),
            final(self)@ == with_alias(old(self)@, *id),
            final(self)@.contains_key(*id),
            alias == final(self)@[*id],
            old(self)@.contains_key(*id) ==> alias == old(self)@[*id],
            !old(self)@.contains_key(*id) ==> alias == AliasId(old(self)@.len() as usize),
    {
        if let Some(alias) = id_map_get(&self.0, id) {
            return alias;
        }
        let ghost before = self@;
        let alias = CommitAlias::from(id_map_len(&self.0));
        id_map_insert(&mut self.0, *id, alias);
        proof {
            assert forall|n: usize| n < self@.len() implies #[trigger] alias_taken(self@, n) by {
                if n < before.len() {
                    assert(alias_taken(before, n));
                    let k = choose|k: CommitId| #[trigger]
                        before.contains_key(k) && before[k] == AliasId(n);
                    assert(self@.contains_key(k) && self@[k] == AliasId(n));
                } else {
                    assert(self@.contains_key(*id) && self@[*id] == AliasId(n));
                }
            }
        }
        alias
    }

    /// Look up the alias for `id`, returning `None` if not found.
    pub fn get(&self, id: &CommitId) -> (r: Option<CommitAlias>)
        ensures
            r == if self@.contains_key(*id) {
                Some(self@[*id])
            } else {
                None::<CommitAlias>
            },
    {
        id_map_get(&self.0, id)
    }
}

impl Default for GraphOids {
    fn default() -> (r: Self)
        ensures
            r.wf(),
            r@ == Map::<CommitId, CommitAlias>::empty(),
    {
        Self::new()
    }
}

} // verus!
