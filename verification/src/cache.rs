use dashmap::DashMap;
use std::collections::hash_map::RandomState;
use vstd::prelude::*;

verus! {

/// The concurrent map the repost-identity cache is built on.
#[verifier::external_type_specification]
#[verifier::external_body]
#[verifier::reject_recursive_types(K)]
#[verifier::reject_recursive_types(V)]
#[verifier::reject_recursive_types(S)]
pub struct ExDashMap<K, V, S>(DashMap<K, V, S>);

/// What the cache's map holds: channel identifier to webhook identity handle.
pub uninterp spec fn cache_entries(m: DashMap<u64, u64, RandomState>) -> Map<u64, u64>;

/// Relies on dashmap::DashMap::get: returns the value stored under the key,
/// if the key is present.
#[verifier::external_body]
fn dash_get(m: &DashMap<u64, u64, RandomState>, k: u64) -> (res: Option<u64>)
    ensures
        res == if cache_entries(*m).contains_key(k) {
            Some(cache_entries(*m)[k])
        } else {
            None::<u64>
        },
{
    m.get(&k).map(|entry| *entry)
}

/// Relies on dashmap::DashMap::insert: stores the value under the key,
/// replacing any earlier entry for it.
#[verifier::external_body]
fn dash_insert(m: &mut DashMap<u64, u64, RandomState>, k: u64, v: u64)
    ensures
        cache_entries(*final(m)) == cache_entries(*old(m)).insert(k, v),
{
    m.insert(k, v);
}

/// One existing publishing identity of a channel, as the platform lists them:
/// its handle and its display name, if it has one.
pub struct HookInfo {
    pub handle: u64,
    pub name: Option<String>,
}

/// Whether an existing identity carries the reserved repost-identity name.
pub open spec fn hook_reserved(h: HookInfo) -> bool {
    h.name is Some && h.name->0@ == crate::reserved_name()
}

/// Index of the first listed identity carrying the reserved name, from `i` on.
pub open spec fn first_reserved(hooks: Seq<HookInfo>, i: int) -> Option<int>
    decreases hooks.len() - i when 0 <= i <= hooks.len()
{
    if i >= hooks.len() {
        None
    } else if hook_reserved(hooks[i]) {
        Some(i)
    } else {
        first_reserved(hooks, i + 1)
    }
}

/// The first listed identity that carries the reserved name, if any: the one
/// an unseen channel adopts instead of creating a duplicate.
pub fn select_reserved(hooks: &Vec<HookInfo>) -> (r: Option<usize>)
    ensures
        match r {
            Some(i) => first_reserved(hooks@, 0) == Some(i as int) && i < hooks.len(),
            None => first_reserved(hooks@, 0) is None,
        },
{
    let mut i: usize = 0;
    while i < hooks.len()
        invariant
            i <= hooks.len(),
            first_reserved(hooks@, 0) == first_reserved(hooks@, i as int),
        decreases hooks.len() - i,
    {
        let reserved = match &hooks[i].name {
            Some(n) => crate::is_reserved_name(n.as_str()),
            None => false,
        };
        if reserved {
            return Some(i);
        }
        i = i + 1;
    }
    None
}

/// What one `get_or_create` step does, as a function of the cache contents,
/// the channel, the channel's listed identities, and the handle a fresh
/// creation would yield: the new contents, the handle returned, and whether a
/// new identity had to be created.
pub open spec fn get_or_create_spec(
    m: Map<u64, u64>,
    channel_id: u64,
    hooks: Seq<HookInfo>,
    fresh_handle: u64,
) -> (Map<u64, u64>, u64, bool) {
    if m.contains_key(channel_id) {
        (m, m[channel_id], false)
    } else {
        match first_reserved(hooks, 0) {
            Some(i) => (m.insert(channel_id, hooks[i].handle), hooks[i].handle, false),
            None => (m.insert(channel_id, fresh_handle), fresh_handle, true),
        }
    }
}

/// The per-channel repost-identity cache: one identity handle per channel,
/// created lazily, never evicted for the life of the process.
pub struct IdentityCache {
    map: DashMap<u64, u64, RandomState>,
}

impl IdentityCache {
    /// The cache's contents as a map from channel identifier to handle.
    pub closed spec fn entries(self) -> Map<u64, u64> {
        cache_entries(self.map)
    }

    /// Relies on dashmap::DashMap::new. A fresh map holds no entry, though no
    /// contract here states it: no caller or proof depends on the contents a
    /// cache starts with.
    #[verifier::external_body]
    pub fn new() -> Self {
        IdentityCache { map: DashMap::new() }
    }

    /// The cached handle for a channel, if one was stored.
    pub fn lookup(&self, channel_id: u64) -> (r: Option<u64>)
        ensures
            r == if self.entries().contains_key(channel_id) {
                Some(self.entries()[channel_id])
            } else {
                None::<u64>
            },
    {
        dash_get(&self.map, channel_id)
    }

    /// Record the handle serving a channel from now on.
    pub fn store(&mut self, channel_id: u64, handle: u64)
        ensures
            final(self).entries() == old(self).entries().insert(channel_id, handle),
    {
        dash_insert(&mut self.map, channel_id, handle)
    }

    /// The repost identity for a channel: the cached handle when one is
    /// stored; otherwise the first listed identity carrying the reserved name
    /// is adopted; otherwise `fresh_handle` — the handle a caller obtained by
    /// creating a new identity under the reserved name — is stored. The flag
    /// reports whether that freshly created identity was used.
    pub fn get_or_create(
        &mut self,
        channel_id: u64,
        hooks: &Vec<HookInfo>,
        fresh_handle: u64,
    ) -> (r: (u64, bool))
        ensures
            ({
                let (m2, handle, created) = get_or_create_spec(
                    old(self).entries(),
                    channel_id,
                    hooks@,
                    fresh_handle,
                );
                final(self).entries() == m2 && r.0 == handle && r.1 == created
            }),
    {
        match self.lookup(channel_id) {
            Some(handle) => (handle, false),
            None => {
                match select_reserved(hooks) {
                    Some(i) => {
                        let handle = hooks[i].handle;
                        self.store(channel_id, handle);
                        (handle, false)
                    },
                    None => {
                        self.store(channel_id, fresh_handle);
                        (fresh_handle, true)
                    },
                }
            },
        }
    }
}

/// Two `get_or_create` steps in sequence for the same channel return the same
/// handle both times, and the second never creates: at most one identity is
/// ever created per channel, whatever the platform lists in between.
pub proof fn lemma_get_or_create_idempotent(
    m: Map<u64, u64>,
    channel_id: u64,
    hooks1: Seq<HookInfo>,
    fresh1: u64,
    hooks2: Seq<HookInfo>,
    fresh2: u64,
)
    ensures
        ({
            let (m1, h1, c1) = get_or_create_spec(m, channel_id, hooks1, fresh1);
            let (m2, h2, c2) = get_or_create_spec(m1, channel_id, hooks2, fresh2);
            h2 == h1 && c2 == false && m2 == m1
        }),
{
}

} // verus!
