//! The store: an entry table behind namespaced keys, with expiry checked on
//! every read, and the save protocol over a medium.
//!
//! Operations that depend on the time come in two forms: one that reads the
//! system clock, and one (`*_at`) that takes the time as an argument.
//! With auto-save on, each mutation records that a save is owed; `sync`
//! performs it on a medium.

use vstd::prelude::*;
use crate::codec::{decode, document_text, encode, is_document, blank, restores, value_texts};
use crate::json::first_token;
use crate::entry::{Entry, alive};
use crate::error::TinyKVError;
use crate::medium::{Files, MemoryMedium, SaveStep, is_save_plan, saved, lemma_plan_runs};
use crate::namespace::{
    apply_namespace, has_prefix, in_namespace, normalize_namespace, normalized_namespace,
    namespaced, starts_with, strip_namespace, stripped,
};
use crate::namespace::{lemma_apply_strip, lemma_strip_apply};
use crate::table::{EntryTable, Sweep, kept_keys, lemma_map_drop_last, table_map, unique_keys};

verus! {

/// Relies on `std::time::SystemTime::now` and `duration_since(UNIX_EPOCH)`: the
/// current UNIX time in whole seconds, or `None` when the clock is before the epoch.
#[verifier::external_body]
fn unix_now() -> (r: Option<u64>) {
    std::time::SystemTime::now().duration_since(std::time::UNIX_EPOCH).ok().map(|d| d.as_secs())
}

/// The expiry of an entry written at `now` with a time-to-live of `ttl` seconds
/// (the largest time where the sum does not fit).
pub open spec fn expiry_after(now: u64, ttl: u64) -> u64 {
    if now + ttl <= u64::MAX {
        (now + ttl) as u64
    } else {
        u64::MAX
    }
}

/// The caller's keys of the alive slots of namespace `ns`, in slot order.
pub open spec fn visible_keys(s: Seq<(Seq<char>, Entry)>, ns: Seq<char>, now: u64) -> Seq<Seq<char>>
    decreases s.len(),
{
    if s.len() == 0 {
        Seq::empty()
    } else {
        let rest = visible_keys(s.drop_last(), ns, now);
        if in_namespace(ns, s.last().0) && alive(s.last().1, now) {
            rest.push(strip_namespace(ns, s.last().0))
        } else {
            rest
        }
    }
}

/// The stored keys of the alive slots that start with `prefix`, in slot order.
pub open spec fn prefixed_keys(s: Seq<(Seq<char>, Entry)>, prefix: Seq<char>, now: u64) -> Seq<Seq<char>>
    decreases s.len(),
{
    if s.len() == 0 {
        Seq::empty()
    } else {
        let rest = prefixed_keys(s.drop_last(), prefix, now);
        if has_prefix(s.last().0, prefix) && alive(s.last().1, now) {
            rest.push(s.last().0)
        } else {
            rest
        }
    }
}

/// The number of alive slots.
pub open spec fn alive_count(s: Seq<(Seq<char>, Entry)>, now: u64) -> nat
    decreases s.len(),
{
    if s.len() == 0 {
        0
    } else if alive(s.last().1, now) {
        alive_count(s.drop_last(), now) + 1
    } else {
        alive_count(s.drop_last(), now)
    }
}

/// The texts of a sequence of strings.
pub open spec fn texts(v: Seq<String>) -> Seq<Seq<char>> {
    v.map_values(|s: String| s@)
}

/// `m` holds an entry under `k` that is alive at `now`.
pub open spec fn live_at(m: Map<Seq<char>, Entry>, k: Seq<char>, now: u64) -> bool {
    m.contains_key(k) && alive(m[k], now)
}

/// The keys of `m` whose entries are alive at `now`.
pub open spec fn alive_keys(m: Map<Seq<char>, Entry>, now: u64) -> Set<Seq<char>> {
    Set::new(|k: Seq<char>| m.contains_key(k) && alive(m[k], now))
}

/// What a read of `key` at time `now` returns (`r`) and leaves (`after`): nothing
/// for a missing key; the value of an alive entry; for an expired entry, nothing,
/// with the entry removed and, under auto-save, a save owed.
pub open spec fn read_outcome(before: &TinyKV, after: &TinyKV, key: Seq<char>, now: u64, r: Option<serde_json::Value>) -> bool {
    let k = apply_namespace(before.ns(), key);
    if !before@.contains_key(k) {
        r is None && after@ == before@ && after.owes_save() == before.owes_save()
    } else if alive(before@[k], now) {
        r == Some(before@[k].value) && after@ == before@ && after.owes_save() == before.owes_save()
    } else {
        r is None && after@ == before@.remove(k)
            && after.owes_save() == (before.owes_save() || before.auto_saves())
    }
}

/// An embedded key-value store.
pub struct TinyKV {
    namespace: String,
    table: EntryTable,
    auto_save: bool,
    backup_enabled: bool,
    save_owed: bool,
}

impl View for TinyKV {
    type V = Map<Seq<char>, Entry>;

    /// The stored entries, by stored key.
    open spec fn view(&self) -> Map<Seq<char>, Entry> {
        table_map(self.slots())
    }
}

impl TinyKV {
    /// The stored entries in slot order.
    pub closed spec fn slots(&self) -> Seq<(Seq<char>, Entry)> {
        self.table.entries()
    }

    /// The namespace applied to callers' keys.
    pub closed spec fn ns(&self) -> Seq<char> {
        self.namespace@
    }

    /// Auto-save is on.
    pub closed spec fn auto_saves(&self) -> bool {
        self.auto_save
    }

    /// Backups are on.
    pub closed spec fn backs_up(&self) -> bool {
        self.backup_enabled
    }

    /// A mutation made with auto-save on has not been saved yet.
    pub closed spec fn owes_save(&self) -> bool {
        self.save_owed
    }

    /// The document that saving the store writes.
    pub open spec fn document(&self) -> Seq<char> {
        document_text(self.slots(), value_texts(self.slots()))
    }

    /// Keys are unique and the namespace is empty or ends with `:`.
    pub open spec fn wf(&self) -> bool {
        &&& unique_keys(self.slots())
        &&& (self.ns().len() == 0 || self.ns().last() == ':')
    }

    /// `ks` lists, in slot order and without repeats, the caller's keys of this
    /// namespace whose entries are alive at `now`.
    pub open spec fn lists_keys(&self, ks: Seq<Seq<char>>, now: u64) -> bool {
        &&& ks == visible_keys(self.slots(), self.ns(), now)
        &&& ks.no_duplicates()
        &&& forall|k: Seq<char>| #[trigger] ks.contains(k) <==> live_at(self@, apply_namespace(self.ns(), k), now)
    }

    /// `ks` lists, in slot order and without repeats, the stored keys starting
    /// with `prefix` whose entries are alive at `now`.
    pub open spec fn lists_prefixed(&self, prefix: Seq<char>, ks: Seq<Seq<char>>, now: u64) -> bool {
        &&& ks == prefixed_keys(self.slots(), prefix, now)
        &&& ks.no_duplicates()
        &&& forall|k: Seq<char>| #[trigger] ks.contains(k) <==> (has_prefix(k, prefix) && live_at(self@, k, now))
    }

    /// `n` is the number of entries alive at `now`.
    pub open spec fn counts_alive(&self, n: nat, now: u64) -> bool {
        &&& n == alive_count(self.slots(), now)
        &&& n == alive_keys(self@, now).len()
    }

    /// Everything but the entries is as in `other`.
    pub open spec fn same_settings(&self, other: &TinyKV) -> bool {
        &&& self.ns() == other.ns()
        &&& self.auto_saves() == other.auto_saves()
        &&& self.backs_up() == other.backs_up()
    }

    /// The settings of a store just made: no namespace, auto-save and backups off.
    pub open spec fn default_settings(&self) -> bool {
        &&& self.ns().len() == 0
        &&& !self.auto_saves()
        &&& !self.backs_up()
        &&& !self.owes_save()
    }

    /// An empty in-memory store.
    pub fn new() -> (r: TinyKV)
        ensures
            r.wf(),
            r@ == Map::<Seq<char>, Entry>::empty(),
            r.slots().len() == 0,
            r.default_settings(),
    {
        TinyKV {
            namespace: String::new(),
            table: EntryTable::new(),
            auto_save: false,
            backup_enabled: false,
            save_owed: false,
        }
    }

    /// A store holding the entries of a persisted document. A blank document
    /// gives an empty store; a malformed one is a serialization error.
    pub fn from_data(data: &str) -> (r: Result<TinyKV, TinyKVError>)
        ensures
            r matches Ok(kv) ==> kv.wf() && kv.default_settings(),
            blank(data@) ==> (r matches Ok(kv) && kv@ == Map::<Seq<char>, Entry>::empty()),
            !blank(data@) && first_token(data@) != Some('{') ==> r is Err,
            r matches Ok(kv) ==> forall|s: Seq<(Seq<char>, Entry)>|
                unique_keys(s) && #[trigger] is_document(s, data@) ==> restores(kv@, s),
            r matches Err(e) ==> e is Serialization,
    {
        let table = decode(data)?;
        Ok(TinyKV {
            namespace: String::new(),
            table,
            auto_save: false,
            backup_enabled: false,
            save_owed: false,
        })
    }

    /// The persisted document for the store's entries.
    pub fn to_data(&self) -> (r: Result<String, TinyKVError>)
        ensures
            r is Ok,
            r matches Ok(t) ==> is_document(self.slots(), t@),
    {
        encode(&self.table)
    }

    /// The store with auto-save on.
    pub fn with_auto_save(self) -> (r: TinyKV)
        requires
            self.wf(),
        ensures
            r.wf(),
            r@ == self@,
            r.slots() == self.slots(),
            r.ns() == self.ns(),
            r.auto_saves(),
            r.backs_up() == self.backs_up(),
            r.owes_save() == self.owes_save(),
    {
        let mut s = self;
        s.auto_save = true;
        s
    }

    /// The store with backups on or off.
    pub fn with_backup(self, enabled: bool) -> (r: TinyKV)
        requires
            self.wf(),
        ensures
            r.wf(),
            r@ == self@,
            r.slots() == self.slots(),
            r.ns() == self.ns(),
            r.auto_saves() == self.auto_saves(),
            r.backs_up() == enabled,
            r.owes_save() == self.owes_save(),
    {
        let mut s = self;
        s.backup_enabled = enabled;
        s
    }

    /// The store with namespace `namespace` (a `:` is added where it does not end with one).
    pub fn with_namespace(self, namespace: &str) -> (r: TinyKV)
        requires
            self.wf(),
        ensures
            r.wf(),
            r@ == self@,
            r.slots() == self.slots(),
            r.ns() == normalized_namespace(namespace@),
            r.auto_saves() == self.auto_saves(),
            r.backs_up() == self.backs_up(),
            r.owes_save() == self.owes_save(),
    {
        let mut s = self;
        s.namespace = normalize_namespace(namespace);
        s
    }

    /// The stored form of `key`.
    fn namespaced_key(&self, key: &str) -> (r: String)
        ensures
            r@ == apply_namespace(self.ns(), key@),
    {
        namespaced(self.namespace.as_str(), key)
    }

    /// The caller's form of the stored `key`.
    fn strip_namespace(&self, key: &str) -> (r: String)
        ensures
            r@ == strip_namespace(self.ns(), key@),
    {
        stripped(self.namespace.as_str(), key)
    }

    /// Stores `value` under `key`, with no expiry.
    pub fn set(&mut self, key: &str, value: serde_json::Value)
        requires
            old(self).wf(),
        ensures
            final(self).wf(),
            final(self).same_settings(old(self)),
            final(self)@ == old(self)@.insert(
                apply_namespace(old(self).ns(), key@),
                Entry { value, expires_at: None },
            ),
            final(self).owes_save() == (old(self).owes_save() || old(self).auto_saves()),
    {
        let k = self.namespaced_key(key);
        self.table.insert(k, Entry { value, expires_at: None });
        if self.auto_save {
            self.save_owed = true;
        }
    }

    /// Stores `value` under `key`, expiring `ttl_secs` seconds after `now`.
    pub fn set_with_ttl_at(&mut self, key: &str, value: serde_json::Value, ttl_secs: u64, now: u64)
        requires
            old(self).wf(),
        ensures
            final(self).wf(),
            final(self).same_settings(old(self)),
            final(self)@ == old(self)@.insert(
                apply_namespace(old(self).ns(), key@),
                Entry { value, expires_at: Some(expiry_after(now, ttl_secs)) },
            ),
            final(self).owes_save() == (old(self).owes_save() || old(self).auto_saves()),
    {
        let k = self.namespaced_key(key);
        let expires_at = now.saturating_add(ttl_secs);
        self.table.insert(k, Entry { value, expires_at: Some(expires_at) });
        if self.auto_save {
            self.save_owed = true;
        }
    }

    /// Stores `value` under `key`, expiring `ttl_secs` seconds from now.
    /// Fails, changing nothing, when the clock is before the UNIX epoch.
    pub fn set_with_ttl(&mut self, key: &str, value: serde_json::Value, ttl_secs: u64) -> (r: Result<(), TinyKVError>)
        requires
            old(self).wf(),
        ensures
            final(self).wf(),
            final(self).same_settings(old(self)),
            r matches Err(e) ==> e is TimeError && final(self)@ == old(self)@ && final(self).owes_save() == old(self).owes_save(),
            r is Ok ==> exists|now: u64| final(self)@ == old(self)@.insert(
                apply_namespace(old(self).ns(), key@),
                Entry { value, expires_at: Some(#[trigger] expiry_after(now, ttl_secs)) },
            ),
            r is Ok ==> final(self).owes_save() == (old(self).owes_save() || old(self).auto_saves()),
    {
        match unix_now() {
            Some(now) => {
                self.set_with_ttl_at(key, value, ttl_secs, now);
                Ok(())
            },
            None => Err(TinyKVError::TimeError),
        }
    }

    /// The value under `key` at time `now`. An entry found expired is removed
    /// (and, with auto-save on, a save is owed) and reads as absent.
    pub fn get_at(&mut self, key: &str, now: u64) -> (r: Option<serde_json::Value>)
        requires
            old(self).wf(),
        ensures
            final(self).wf(),
            final(self).same_settings(old(self)),
            read_outcome(old(self), final(self), key@, now, r),
    {
        let k = self.namespaced_key(key);
        let (expired, value) = match self.table.get(&k) {
            None => {
                return None;
            },
            Some(e) => {
                if e.is_expired(now) {
                    (true, None)
                } else {
                    (false, Some(e.value.clone()))
                }
            },
        };
        if expired {
            self.table.remove(&k);
            if self.auto_save {
                self.save_owed = true;
            }
        }
        value
    }

    /// The value under `key` now; see `get_at`. Fails, changing nothing, when
    /// the clock is before the UNIX epoch.
    pub fn get(&mut self, key: &str) -> (r: Result<Option<serde_json::Value>, TinyKVError>)
        requires
            old(self).wf(),
        ensures
            final(self).wf(),
            final(self).same_settings(old(self)),
            r matches Err(e) ==> e is TimeError && final(self)@ == old(self)@
                && final(self).owes_save() == old(self).owes_save(),
            r matches Ok(v) ==> exists|now: u64| #[trigger] read_outcome(old(self), final(self), key@, now, v),
    {
        match unix_now() {
            Some(now) => Ok(self.get_at(key, now)),
            None => Err(TinyKVError::TimeError),
        }
    }

    /// Removes `key`; true iff it was stored (alive or not). With auto-save on,
    /// a removal owes a save.
    pub fn remove(&mut self, key: &str) -> (r: bool)
        requires
            old(self).wf(),
        ensures
            final(self).wf(),
            final(self).same_settings(old(self)),
            r == old(self)@.contains_key(apply_namespace(old(self).ns(), key@)),
            final(self)@ == old(self)@.remove(apply_namespace(old(self).ns(), key@)),
            final(self).owes_save() == (old(self).owes_save() || (r && old(self).auto_saves())),
    {
        let k = self.namespaced_key(key);
        let removed = self.table.remove(&k);
        if removed && self.auto_save {
            self.save_owed = true;
        }
        removed
    }

    /// Whether `key` holds an entry alive at `now`. Changes nothing.
    pub fn contains_key_at(&self, key: &str, now: u64) -> (r: bool)
        requires
            self.wf(),
        ensures
            r == live_at(self@, apply_namespace(self.ns(), key@), now),
    {
        let k = self.namespaced_key(key);
        match self.table.get(&k) {
            Some(e) => !e.is_expired(now),
            None => false,
        }
    }

    /// Whether `key` holds an entry alive now (a clock before the epoch reads as time 0).
    pub fn contains_key(&self, key: &str) -> (r: bool)
        requires
            self.wf(),
        ensures
            exists|now: u64| r == #[trigger] live_at(self@, apply_namespace(self.ns(), key@), now),
    {
        let now = now_or_zero();
        let r = self.contains_key_at(key, now);
        assert(r == live_at(self@, apply_namespace(self.ns(), key@), now));
        r
    }

    /// The caller's keys of the entries of this namespace alive at `now`, in
    /// storage order (with a namespace set, entries outside it are left out).
    pub fn keys_at(&self, now: u64) -> (r: Vec<String>)
        requires
            self.wf(),
        ensures
            self.lists_keys(texts(r@), now),
    {
        let mut out: Vec<String> = Vec::new();
        let n = self.table.slot_count();
        let mut i: usize = 0;
        while i < n
            invariant
                n == self.slots().len(),
                i <= n,
                texts(out@) == visible_keys(self.slots().take(i as int), self.ns(), now),
            decreases n - i,
        {
            let k = self.table.key_at(i);
            let e = self.table.entry_at(i);
            let ghost pre = out@;
            assert(self.slots().take(i + 1).drop_last() =~= self.slots().take(i as int));
            assert(self.slots().take(i + 1).last() == self.slots()[i as int]);
            let inside = self.namespace.as_str().unicode_len() == 0 || starts_with(k.as_str(), self.namespace.as_str());
            if inside && !e.is_expired(now) {
                out.push(self.strip_namespace(k.as_str()));
                assert(texts(out@) =~= texts(pre).push(out@.last()@));
            }
            i = i + 1;
        }
        assert(self.slots().take(n as int) =~= self.slots());
        proof {
            lemma_visible_keys(self.slots(), self.ns(), now);
        }
        out
    }

    /// `keys_at` now (a clock before the epoch reads as time 0).
    pub fn keys(&self) -> (r: Vec<String>)
        requires
            self.wf(),
        ensures
            exists|now: u64| #[trigger] self.lists_keys(texts(r@), now),
    {
        self.keys_at(now_or_zero())
    }

    /// The stored keys (namespace included) alive at `now` that start with
    /// `prefix`, across all namespaces, in storage order.
    pub fn list_keys_at(&self, prefix: &str, now: u64) -> (r: Vec<String>)
        requires
            self.wf(),
        ensures
            self.lists_prefixed(prefix@, texts(r@), now),
    {
        let mut out: Vec<String> = Vec::new();
        let n = self.table.slot_count();
        let mut i: usize = 0;
        while i < n
            invariant
                n == self.slots().len(),
                i <= n,
                texts(out@) == prefixed_keys(self.slots().take(i as int), prefix@, now),
            decreases n - i,
        {
            let k = self.table.key_at(i);
            let e = self.table.entry_at(i);
            let ghost pre = out@;
            assert(self.slots().take(i + 1).drop_last() =~= self.slots().take(i as int));
            assert(self.slots().take(i + 1).last() == self.slots()[i as int]);
            if starts_with(k.as_str(), prefix) && !e.is_expired(now) {
                out.push(k.clone());
                assert(texts(out@) =~= texts(pre).push(k@));
            }
            i = i + 1;
        }
        assert(self.slots().take(n as int) =~= self.slots());
        proof {
            lemma_prefixed_keys(self.slots(), prefix@, now);
        }
        out
    }

    /// `list_keys_at` now (a clock before the epoch reads as time 0).
    pub fn list_keys(&self, prefix: &str) -> (r: Vec<String>)
        requires
            self.wf(),
        ensures
            exists|now: u64| #[trigger] self.lists_prefixed(prefix@, texts(r@), now),
    {
        self.list_keys_at(prefix, now_or_zero())
    }

    /// The number of entries alive at `now`, over all namespaces.
    pub fn len_at(&self, now: u64) -> (r: usize)
        requires
            self.wf(),
        ensures
            self.counts_alive(r as nat, now),
    {
        let n = self.table.slot_count();
        let mut count: usize = 0;
        let mut i: usize = 0;
        while i < n
            invariant
                n == self.slots().len(),
                i <= n,
                count == alive_count(self.slots().take(i as int), now),
                count <= i,
            decreases n - i,
        {
            assert(self.slots().take(i + 1).drop_last() =~= self.slots().take(i as int));
            assert(self.slots().take(i + 1).last() == self.slots()[i as int]);
            if !self.table.entry_at(i).is_expired(now) {
                count = count + 1;
            }
            i = i + 1;
        }
        assert(self.slots().take(n as int) =~= self.slots());
        proof {
            lemma_alive_count(self.slots(), now);
        }
        count
    }

    /// `len_at` now (a clock before the epoch reads as time 0).
    pub fn len(&self) -> (r: usize)
        requires
            self.wf(),
        ensures
            exists|now: u64| #[trigger] self.counts_alive(r as nat, now),
    {
        self.len_at(now_or_zero())
    }

    /// Whether no entry is alive now.
    pub fn is_empty(&self) -> (r: bool)
        requires
            self.wf(),
        ensures
            exists|now: u64| r == (#[trigger] alive_keys(self@, now).len() == 0),
    {
        self.len() == 0
    }

    /// Drops the entries not alive at `now`; returns how many. With auto-save
    /// on, dropping any owes a save.
    pub fn purge_expired_at(&mut self, now: u64) -> (r: usize)
        requires
            old(self).wf(),
        ensures
            final(self).wf(),
            final(self).same_settings(old(self)),
            final(self)@ == old(self)@.restrict(alive_keys(old(self)@, now)),
            r == old(self)@.dom().len() - final(self)@.dom().len(),
            final(self).owes_save() == (old(self).owes_save() || (r > 0 && old(self).auto_saves())),
    {
        let removed = self.table.sweep(&Sweep::Expired(now));
        assert(kept_keys(old(self)@, Sweep::Expired(now)) =~= alive_keys(old(self)@, now));
        if removed > 0 && self.auto_save {
            self.save_owed = true;
        }
        removed
    }

    /// `purge_expired_at` now. An empty store returns 0 without reading the
    /// clock; otherwise a clock before the epoch fails, changing nothing.
    pub fn purge_expired(&mut self) -> (r: Result<usize, TinyKVError>)
        requires
            old(self).wf(),
        ensures
            final(self).wf(),
            final(self).same_settings(old(self)),
            old(self).slots().len() == 0 ==> r == Ok::<usize, TinyKVError>(0) && final(self)@ == old(self)@,
            r matches Err(e) ==> e is TimeError && final(self)@ == old(self)@
                && final(self).owes_save() == old(self).owes_save(),
            r matches Ok(n) ==> exists|now: u64| final(self)@ == old(self)@.restrict(#[trigger] alive_keys(old(self)@, now))
                && n == old(self)@.dom().len() - final(self)@.dom().len()
                && final(self).owes_save() == (old(self).owes_save() || (n > 0 && old(self).auto_saves())),
    {
        if self.table.slot_count() == 0 {
            assert(self@ =~= Map::<Seq<char>, Entry>::empty());
            assert(self@ =~= self@.restrict(alive_keys(self@, 0)));
            return Ok(0);
        }
        match unix_now() {
            Some(now) => Ok(self.purge_expired_at(now)),
            None => Err(TinyKVError::TimeError),
        }
    }

    /// Drops every entry, of every namespace. With auto-save on, a save is owed.
    pub fn clear(&mut self)
        requires
            old(self).wf(),
        ensures
            final(self).wf(),
            final(self).same_settings(old(self)),
            final(self)@ == Map::<Seq<char>, Entry>::empty(),
            final(self).slots().len() == 0,
            final(self).owes_save() == (old(self).owes_save() || old(self).auto_saves()),
    {
        self.table.clear();
        if self.auto_save {
            self.save_owed = true;
        }
    }

    /// Drops every entry, alive or not, whose stored key starts with `prefix`;
    /// returns how many. With auto-save on, dropping any owes a save.
    pub fn clear_prefix(&mut self, prefix: &str) -> (r: usize)
        requires
            old(self).wf(),
        ensures
            final(self).wf(),
            final(self).same_settings(old(self)),
            final(self)@ == old(self)@.restrict(
                Set::new(|k: Seq<char>| old(self)@.contains_key(k) && !has_prefix(k, prefix@)),
            ),
            r == old(self)@.dom().len() - final(self)@.dom().len(),
            final(self).owes_save() == (old(self).owes_save() || (r > 0 && old(self).auto_saves())),
    {
        let w = Sweep::Prefixed(prefix.to_owned());
        let removed = self.table.sweep(&w);
        assert(kept_keys(old(self)@, w) =~= Set::new(
            |k: Seq<char>| old(self)@.contains_key(k) && !has_prefix(k, prefix@),
        ));
        if removed > 0 && self.auto_save {
            self.save_owed = true;
        }
        removed
    }

    /// Whether auto-save is on.
    pub fn auto_save_enabled(&self) -> (r: bool)
        ensures
            r == self.auto_saves(),
    {
        self.auto_save
    }

    /// Whether a save is owed (auto-save is on and a mutation has not been saved).
    pub fn save_due(&self) -> (r: bool)
        ensures
            r == self.owes_save(),
    {
        self.save_owed
    }

    /// Records that the entries have been saved.
    pub fn mark_saved(&mut self)
        requires
            old(self).wf(),
        ensures
            final(self).wf(),
            final(self).same_settings(old(self)),
            final(self).slots() == old(self).slots(),
            !final(self).owes_save(),
    {
        self.save_owed = false;
    }

    /// The steps that save the entries to a medium whose canonical document
    /// exists or not: a backup first when backups are on and it exists, then the
    /// new document to the temporary sibling, then the rename.
    pub fn save_steps(&self, main_exists: bool) -> (r: Result<Vec<SaveStep>, TinyKVError>)
        ensures
            r is Ok,
            r matches Ok(steps) ==> is_save_plan(steps@, self.backs_up(), main_exists, self.document()),
    {
        let doc = self.to_data()?;
        let mut steps: Vec<SaveStep> = Vec::new();
        if self.backup_enabled && main_exists {
            steps.push(SaveStep::Backup);
        }
        let ghost d = doc@;
        steps.push(SaveStep::WriteTemp(doc));
        steps.push(SaveStep::CommitTemp);
        Ok(steps)
    }

    /// Saves the entries to `medium` by the save protocol.
    pub fn save(&self, medium: &mut MemoryMedium) -> (r: Result<(), TinyKVError>)
        ensures
            r is Ok,
            final(medium)@ == saved(old(medium)@, self.backs_up(), self.document()),
    {
        let steps = self.save_steps(medium.main.is_some())?;
        proof {
            lemma_plan_runs(medium@, steps@, self.backs_up(), self.document());
        }
        let done = medium.perform(&steps);
        assert(done is Ok);
        Ok(())
    }

    /// Saves to `medium` if a save is owed, and records it as done.
    pub fn sync(&mut self, medium: &mut MemoryMedium) -> (r: Result<(), TinyKVError>)
        requires
            old(self).wf(),
        ensures
            final(self).wf(),
            final(self).same_settings(old(self)),
            final(self).slots() == old(self).slots(),
            r is Ok,
            !final(self).owes_save(),
            !old(self).owes_save() ==> final(medium)@ == old(medium)@,
            old(self).owes_save() ==> final(medium)@ == saved(old(medium)@, old(self).backs_up(), old(self).document()),
    {
        if self.save_owed {
            self.save(medium)?;
            self.save_owed = false;
        }
        Ok(())
    }

    /// A store over the document read from a medium: `None` where the medium has
    /// no document (an empty store), else the decoded document.
    pub fn load(contents: Option<&str>) -> (r: Result<TinyKV, TinyKVError>)
        ensures
            r matches Ok(kv) ==> kv.wf() && kv.default_settings(),
            contents is None ==> (r matches Ok(kv) && kv@ == Map::<Seq<char>, Entry>::empty()),
            contents matches Some(t) && blank(t@) ==> (r matches Ok(kv) && kv@ == Map::<Seq<char>, Entry>::empty()),
            contents matches Some(t) && !blank(t@) && first_token(t@) != Some('{') ==> r is Err,
            r matches Ok(kv) ==> forall|s: Seq<(Seq<char>, Entry)>|
                unique_keys(s) && contents is Some && #[trigger] is_document(s, contents.unwrap()@) ==> restores(kv@, s),
            r matches Err(e) ==> e is Serialization,
    {
        match contents {
            None => Ok(TinyKV::new()),
            Some(text) => TinyKV::from_data(text),
        }
    }

    /// A store over the canonical document of `medium`.
    pub fn open(medium: &MemoryMedium) -> (r: Result<TinyKV, TinyKVError>)
        ensures
            r matches Ok(kv) ==> kv.wf() && kv.default_settings(),
            medium@.main is None ==> (r matches Ok(kv) && kv@ == Map::<Seq<char>, Entry>::empty()),
            medium@.main matches Some(t) && blank(t) ==> (r matches Ok(kv) && kv@ == Map::<Seq<char>, Entry>::empty()),
            medium@.main matches Some(t) && !blank(t) && first_token(t) != Some('{') ==> r is Err,
            r matches Ok(kv) ==> forall|s: Seq<(Seq<char>, Entry)>|
                unique_keys(s) && medium@.main is Some && #[trigger] is_document(s, medium@.main.unwrap()) ==> restores(kv@, s),
            r matches Err(e) ==> e is Serialization,
    {
        match medium.read() {
            None => TinyKV::load(None),
            Some(text) => TinyKV::load(Some(text.as_str())),
        }
    }

    /// Replaces the entries with those of the document read from a medium
    /// (`None`: no document, so no entries), discarding unsaved changes. On an
    /// error nothing changes.
    pub fn reload_contents(&mut self, contents: Option<&str>) -> (r: Result<(), TinyKVError>)
        requires
            old(self).wf(),
        ensures
            final(self).wf(),
            final(self).same_settings(old(self)),
            contents is None ==> r is Ok && final(self)@ == Map::<Seq<char>, Entry>::empty(),
            contents matches Some(t) && blank(t@) ==> r is Ok && final(self)@ == Map::<Seq<char>, Entry>::empty(),
            contents matches Some(t) && !blank(t@) && first_token(t@) != Some('{') ==> r is Err,
            r is Ok ==> forall|s: Seq<(Seq<char>, Entry)>|
                unique_keys(s) && contents is Some && #[trigger] is_document(s, contents.unwrap()@) ==> restores(final(self)@, s),
            r is Ok ==> !final(self).owes_save(),
            r matches Err(e) ==> e is Serialization && final(self).slots() == old(self).slots()
                && final(self).owes_save() == old(self).owes_save(),
    {
        let fresh = TinyKV::load(contents)?;
        self.table = fresh.table;
        self.save_owed = false;
        Ok(())
    }

    /// Replaces the entries with those of the canonical document of `medium`.
    pub fn reload(&mut self, medium: &MemoryMedium) -> (r: Result<(), TinyKVError>)
        requires
            old(self).wf(),
        ensures
            final(self).wf(),
            final(self).same_settings(old(self)),
            medium@.main is None ==> r is Ok && final(self)@ == Map::<Seq<char>, Entry>::empty(),
            medium@.main matches Some(t) && blank(t) ==> r is Ok && final(self)@ == Map::<Seq<char>, Entry>::empty(),
            medium@.main matches Some(t) && !blank(t) && first_token(t) != Some('{') ==> r is Err,
            r is Ok ==> forall|s: Seq<(Seq<char>, Entry)>|
                unique_keys(s) && medium@.main is Some && #[trigger] is_document(s, medium@.main.unwrap()) ==> restores(final(self)@, s),
            r is Ok ==> !final(self).owes_save(),
            r matches Err(e) ==> e is Serialization && final(self).slots() == old(self).slots(),
    {
        match medium.read() {
            None => self.reload_contents(None),
            Some(text) => self.reload_contents(Some(text.as_str())),
        }
    }
}

impl Default for TinyKV {
    /// An empty in-memory store, as `new`.
    fn default() -> (r: TinyKV)
        ensures
            r.wf(),
            r@ == Map::<Seq<char>, Entry>::empty(),
            r.default_settings(),
    {
        TinyKV::new()
    }
}

/// The current time, with a clock before the epoch read as time 0.
fn now_or_zero() -> u64 {
    match unix_now() {
        Some(t) => t,
        None => 0,
    }
}

/// What a sequence holds after a push.
proof fn lemma_push_contains(s: Seq<Seq<char>>, y: Seq<char>)
    ensures
        forall|k: Seq<char>| #[trigger] s.push(y).contains(k) <==> (s.contains(k) || k == y),
        s.no_duplicates() && !s.contains(y) ==> s.push(y).no_duplicates(),
{
    let t = s.push(y);
    assert forall|k: Seq<char>| #[trigger] t.contains(k) <==> (s.contains(k) || k == y) by {
        if t.contains(k) {
            let i = choose|i: int| 0 <= i < t.len() && t[i] == k;
            if i < s.len() {
                assert(s[i] == k);
            }
        }
        if s.contains(k) {
            let i = choose|i: int| 0 <= i < s.len() && s[i] == k;
            assert(t[i] == k);
        }
        if k == y {
            assert(t[s.len() as int] == k);
        }
    }
    if s.no_duplicates() && !s.contains(y) {
        assert forall|i: int, j: int| 0 <= i < t.len() && 0 <= j < t.len() && i != j implies t[i] != t[j] by {
            if i == s.len() {
                assert(s.contains(t[j]));
            } else if j == s.len() {
                assert(s.contains(t[i]));
            }
        }
    }
}

/// The keys `keys_at` lists are, without repeats, exactly the caller's keys
/// with an alive entry in the namespace.
pub proof fn lemma_visible_keys(s: Seq<(Seq<char>, Entry)>, ns: Seq<char>, now: u64)
    requires
        unique_keys(s),
    ensures
        visible_keys(s, ns, now).no_duplicates(),
        forall|k: Seq<char>| #[trigger] visible_keys(s, ns, now).contains(k) <==> live_at(
            table_map(s),
            apply_namespace(ns, k),
            now,
        ),
    decreases s.len(),
{
    if s.len() == 0 {
        assert forall|k: Seq<char>| !live_at(table_map(s), apply_namespace(ns, k), now) by {}
    } else {
        let p = s.drop_last();
        let x = s.last();
        lemma_map_drop_last(s);
        lemma_visible_keys(p, ns, now);
        let rest = visible_keys(p, ns, now);
        let mp = table_map(p);
        let m = table_map(s);
        if in_namespace(ns, x.0) && alive(x.1, now) {
            let y = strip_namespace(ns, x.0);
            lemma_apply_strip(ns, x.0);
            lemma_push_contains(rest, y);
            assert forall|k: Seq<char>| #[trigger] rest.push(y).contains(k) <==> live_at(m, apply_namespace(ns, k), now) by {
                lemma_strip_apply(ns, k);
            }
        } else {
            assert forall|k: Seq<char>| #[trigger] rest.contains(k) <==> live_at(m, apply_namespace(ns, k), now) by {
                lemma_strip_apply(ns, k);
            }
        }
    }
}

/// The keys `list_keys_at` lists are, without repeats, exactly the stored keys
/// with an alive entry that start with the prefix.
pub proof fn lemma_prefixed_keys(s: Seq<(Seq<char>, Entry)>, prefix: Seq<char>, now: u64)
    requires
        unique_keys(s),
    ensures
        prefixed_keys(s, prefix, now).no_duplicates(),
        forall|k: Seq<char>| #[trigger] prefixed_keys(s, prefix, now).contains(k) <==> (has_prefix(k, prefix)
            && live_at(table_map(s), k, now)),
    decreases s.len(),
{
    if s.len() > 0 {
        let p = s.drop_last();
        let x = s.last();
        lemma_map_drop_last(s);
        lemma_prefixed_keys(p, prefix, now);
        let rest = prefixed_keys(p, prefix, now);
        lemma_push_contains(rest, x.0);
    }
}

/// `alive_count` is the number of keys with an alive entry.
pub proof fn lemma_alive_count(s: Seq<(Seq<char>, Entry)>, now: u64)
    requires
        unique_keys(s),
    ensures
        alive_keys(table_map(s), now).finite(),
        alive_count(s, now) == alive_keys(table_map(s), now).len(),
    decreases s.len(),
{
    if s.len() == 0 {
        assert(alive_keys(table_map(s), now) =~= Set::<Seq<char>>::empty());
    } else {
        let p = s.drop_last();
        let x = s.last();
        lemma_map_drop_last(s);
        lemma_alive_count(p, now);
        if alive(x.1, now) {
            assert(alive_keys(table_map(s), now) =~= alive_keys(table_map(p), now).insert(x.0));
        } else {
            assert(alive_keys(table_map(s), now) =~= alive_keys(table_map(p), now));
        }
    }
}

/// Reading back a key just set with no expiry returns the value that was set.
pub proof fn lemma_set_then_get(
    before: &TinyKV,
    after_set: &TinyKV,
    after_get: &TinyKV,
    key: Seq<char>,
    value: serde_json::Value,
    now: u64,
    r: Option<serde_json::Value>,
)
    requires
        after_set.same_settings(before),
        after_set@ == before@.insert(apply_namespace(before.ns(), key), Entry { value, expires_at: None }),
        read_outcome(after_set, after_get, key, now, r),
    ensures
        r == Some(value),
{
}

/// Removing a key with an alive entry returns true; removing it again at once
/// returns false.
pub proof fn lemma_remove_twice(s0: &TinyKV, s1: &TinyKV, key: Seq<char>, now: u64, first: bool, second: bool)
    requires
        s1.same_settings(s0),
        first == s0@.contains_key(apply_namespace(s0.ns(), key)),
        s1@ == s0@.remove(apply_namespace(s0.ns(), key)),
        second == s1@.contains_key(apply_namespace(s1.ns(), key)),
    ensures
        live_at(s0@, apply_namespace(s0.ns(), key), now) ==> first,
        !second,
{
}

/// An entry set with a time-to-live of zero is still alive within the same
/// second: reading it then returns the value.
pub proof fn lemma_zero_ttl_alive_same_second(
    before: &TinyKV,
    after_set: &TinyKV,
    after_get: &TinyKV,
    key: Seq<char>,
    value: serde_json::Value,
    now: u64,
    r: Option<serde_json::Value>,
)
    requires
        after_set.same_settings(before),
        after_set@ == before@.insert(
            apply_namespace(before.ns(), key),
            Entry { value, expires_at: Some(expiry_after(now, 0)) },
        ),
        read_outcome(after_set, after_get, key, now, r),
    ensures
        r == Some(value),
{
}

/// Once the clock is past an entry's expiry, reading the key returns nothing
/// and the key is not among the listed keys.
pub proof fn lemma_expired_key_gone(
    before: &TinyKV,
    after_set: &TinyKV,
    after_get: &TinyKV,
    key: Seq<char>,
    value: serde_json::Value,
    ttl: u64,
    now: u64,
    later: u64,
    r: Option<serde_json::Value>,
)
    requires
        after_set.wf(),
        after_set.same_settings(before),
        after_set@ == before@.insert(
            apply_namespace(before.ns(), key),
            Entry { value, expires_at: Some(expiry_after(now, ttl)) },
        ),
        later > expiry_after(now, ttl),
        read_outcome(after_set, after_get, key, later, r),
    ensures
        r is None,
        !visible_keys(after_set.slots(), after_set.ns(), later).contains(key),
{
    lemma_visible_keys(after_set.slots(), after_set.ns(), later);
}

/// Clearing a store that was just cleared leaves it empty, as before.
pub proof fn lemma_clear_twice(s1: &TinyKV, s2: &TinyKV)
    requires
        s1@ == Map::<Seq<char>, Entry>::empty(),
        s2@ == Map::<Seq<char>, Entry>::empty(),
    ensures
        s1@.dom().len() == 0,
        s2@ == s1@,
{
    assert(s1@.dom() =~= Set::<Seq<char>>::empty());
}

/// A store opened on the document that another store saved holds the same keys
/// with the same expiries, so the same keys are alive at any time.
pub proof fn lemma_saved_store_reopens(saver: &TinyKV, m: Files, reopened: &TinyKV, now: u64)
    requires
        saver.wf(),
        m.main == Some(saver.document()),
        forall|s: Seq<(Seq<char>, Entry)>|
            unique_keys(s) && m.main is Some && #[trigger] is_document(s, m.main.unwrap()) ==> restores(reopened@, s),
    ensures
        restores(reopened@, saver.slots()),
        reopened@.dom() == saver@.dom(),
        alive_keys(reopened@, now) == alive_keys(saver@, now),
{
    assert(is_document(saver.slots(), m.main.unwrap()));
    assert(alive_keys(reopened@, now) =~= alive_keys(saver@, now));
}

} // verus!
