//! Typed model of the key/value cache store.
//!
//! The store maps string keys to entries; an entry holds either a text value
//! or a list of messages, together with an optional absolute expiry time in
//! seconds.  An entry whose expiry has been reached behaves as absent.  Each
//! individual operation is atomic; sequences of operations are not, which is
//! what the population race of the message cache is about.
//!
//! Abstractly a store is a `Map<Seq<char>, EntryView>`; every operation's
//! contract says exactly how that map changes.

use vstd::prelude::*;

use crate::errors::AppError;
use crate::models::Message;

verus! {

/// Payload of a cache entry.
pub enum CacheValue {
    Text(String),
    List(Vec<Message>),
}

/// One entry: a payload and an optional absolute expiry time (seconds).
pub struct CacheEntry {
    pub value: CacheValue,
    pub expires_at: Option<u64>,
}

/// One key together with its entry.
pub struct CacheSlot {
    pub key: String,
    pub entry: CacheEntry,
}

/// Abstract payload of an entry.
pub enum EntryValue {
    TextV(Seq<char>),
    ListV(Seq<Message>),
}

/// Abstract entry: what a key maps to in the store's view.
pub struct EntryView {
    pub value: EntryValue,
    pub expires_at: Option<u64>,
}

/// Abstraction of a concrete entry.
pub open spec fn slot_view(e: CacheEntry) -> EntryView {
    EntryView {
        value: match e.value {
            CacheValue::Text(s) => EntryValue::TextV(s@),
            CacheValue::List(l) => EntryValue::ListV(l@),
        },
        expires_at: e.expires_at,
    }
}

/// Whether some slot carries the key `k`.
pub open spec fn slots_has(slots: Seq<CacheSlot>, k: Seq<char>) -> bool {
    exists|i: int| 0 <= i < slots.len() && slots[i].key@ == k
}

/// Index of the slot carrying `k` (unique when the keys are distinct).
pub open spec fn slots_idx(slots: Seq<CacheSlot>, k: Seq<char>) -> int {
    choose|i: int| 0 <= i < slots.len() && slots[i].key@ == k
}

/// Pairwise distinctness of the keys.
pub open spec fn slots_uniq(slots: Seq<CacheSlot>) -> bool {
    forall|i: int, j: int| 0 <= i < j < slots.len() ==> slots[i].key@ != slots[j].key@
}

/// The map a sequence of slots stands for.
pub open spec fn slots_map(slots: Seq<CacheSlot>) -> Map<Seq<char>, EntryView> {
    Map::new(
        |k: Seq<char>| slots_has(slots, k),
        |k: Seq<char>| slot_view(slots[slots_idx(slots, k)].entry),
    )
}

/// With distinct keys, the chosen index for a key agrees with any index
/// that carries it.
proof fn lemma_idx_agrees(slots: Seq<CacheSlot>, i: int)
    requires
        slots_uniq(slots),
        0 <= i < slots.len(),
    ensures
        slots_has(slots, slots[i].key@),
        slots_idx(slots, slots[i].key@) == i,
        slots_map(slots)[slots[i].key@] == slot_view(slots[i].entry),
{
    let k = slots[i].key@;
    assert(slots_has(slots, k));
    let j = slots_idx(slots, k);
    assert(0 <= j < slots.len() && slots[j].key@ == k);
    if j != i {
        assert(false);
    }
}

/// Appending a slot with a fresh key inserts its entry into the map.
proof fn lemma_push_slot(slots: Seq<CacheSlot>, s: CacheSlot)
    requires
        slots_uniq(slots),
        !slots_has(slots, s.key@),
    ensures
        slots_uniq(slots.push(s)),
        slots_map(slots.push(s)) =~= slots_map(slots).insert(s.key@, slot_view(s.entry)),
{
    let post = slots.push(s);
    assert forall|k: Seq<char>| #[trigger] slots_has(post, k) implies slots_has(slots, k) || k
        == s.key@ by {
        let i = choose|i: int| 0 <= i < post.len() && post[i].key@ == k;
        if i < slots.len() {
            assert(slots[i].key@ == k);
        }
    }
    assert forall|k: Seq<char>| #[trigger] slots_has(slots, k) implies slots_has(post, k)
        && slots_map(post)[k] == slots_map(slots)[k] by {
        let i = slots_idx(slots, k);
        assert(slots[i].key@ == k);
        assert(post[i].key@ == k);
        let j = slots_idx(post, k);
        assert(0 <= j < post.len() && post[j].key@ == k);
        if j < slots.len() {
            assert(slots[j].key@ == k);
            assert(j == i);
        } else {
            assert(post[j] == s);
            assert(false);
        }
    }
    assert(post[slots.len() as int] == s);
    assert(slots_has(post, s.key@));
    let j = slots_idx(post, s.key@);
    assert(0 <= j < post.len() && post[j].key@ == s.key@);
    if j < slots.len() {
        assert(slots[j].key@ == s.key@);
        assert(false);
    }
    assert(slots_map(post)[s.key@] == slot_view(s.entry));
}

/// Removing the slot carrying a key removes that key from the map.
proof fn lemma_remove_slot(slots: Seq<CacheSlot>, i: int)
    requires
        slots_uniq(slots),
        0 <= i < slots.len(),
    ensures
        slots_uniq(slots.remove(i)),
        slots_map(slots.remove(i)) =~= slots_map(slots).remove(slots[i].key@),
{
    let post = slots.remove(i);
    let k0 = slots[i].key@;
    slots.remove_ensures(i);
    assert forall|a: int, b: int| 0 <= a < b < post.len() implies post[a].key@ != post[b].key@ by {
        let a2 = if a < i {
            a
        } else {
            a + 1
        };
        let b2 = if b < i {
            b
        } else {
            b + 1
        };
        assert(post[a] == slots[a2]);
        assert(post[b] == slots[b2]);
    }
    assert forall|k: Seq<char>| #[trigger] slots_has(post, k) implies slots_has(slots, k) && k
        != k0 by {
        let j = choose|j: int| 0 <= j < post.len() && post[j].key@ == k;
        let j2 = if j < i {
            j
        } else {
            j + 1
        };
        assert(post[j] == slots[j2]);
        assert(slots[j2].key@ == k);
    }
    assert forall|k: Seq<char>| slots_has(slots, k) && k != k0 implies #[trigger] slots_has(post, k)
        && slots_map(post)[k] == slots_map(slots)[k] by {
        let j = slots_idx(slots, k);
        assert(slots[j].key@ == k);
        assert(j != i);
        let j2 = if j < i {
            j
        } else {
            j - 1
        };
        assert(post[j2] == slots[j]);
        assert(slots_has(post, k));
        let m = slots_idx(post, k);
        let m2 = if m < i {
            m
        } else {
            m + 1
        };
        assert(post[m] == slots[m2]);
        assert(m2 == j);
    }
}

/// The cache store itself.
pub struct CacheStore {
    pub slots: Vec<CacheSlot>,
}

impl View for CacheStore {
    type V = Map<Seq<char>, EntryView>;

    open spec fn view(&self) -> Map<Seq<char>, EntryView> {
        slots_map(self.slots@)
    }
}

impl CacheStore {
    /// Distinct keys: every operation keeps this.
    pub open spec fn wf(self) -> bool {
        slots_uniq(self.slots@)
    }

    /// Whether `k` is present and not yet expired at time `now`.
    pub open spec fn spec_live(self, k: Seq<char>, now: u64) -> bool {
        self@.dom().contains(k) && match self@[k].expires_at {
            Some(t) => now < t,
            None => true,
        }
    }

    /// The text under `k` at time `now`, if any.
    pub open spec fn spec_text(self, k: Seq<char>, now: u64) -> Option<Seq<char>> {
        if self.spec_live(k, now) {
            match self@[k].value {
                EntryValue::TextV(s) => Some(s),
                EntryValue::ListV(_) => None,
            }
        } else {
            None
        }
    }

    /// The list under `k` at time `now`; absent, expired and text entries
    /// all read as the empty list.
    pub open spec fn spec_list(self, k: Seq<char>, now: u64) -> Seq<Message> {
        if self.spec_live(k, now) {
            match self@[k].value {
                EntryValue::ListV(l) => l,
                EntryValue::TextV(_) => Seq::empty(),
            }
        } else {
            Seq::empty()
        }
    }

    pub fn new() -> (r: CacheStore)
        ensures
            r.wf(),
            r@ == Map::<Seq<char>, EntryView>::empty(),
    {
        let r = CacheStore { slots: Vec::new() };
        proof {
            assert(r@ =~= Map::<Seq<char>, EntryView>::empty());
        }
        r
    }

    /// Index of the slot carrying `key`, if one does.
    fn find_idx(&self, key: &String) -> (r: Option<usize>)
        requires
            self.wf(),
        ensures
            match r {
                Some(i) => i < self.slots@.len() && self.slots@[i as int].key@ == key@
                    && self@.dom().contains(key@),
                None => !self@.dom().contains(key@),
            },
    {
        let n = self.slots.len();
        let mut i: usize = 0;
        while i < n
            invariant
                n == self.slots@.len(),
                i <= n,
                self.wf(),
                forall|j: int| 0 <= j < i ==> self.slots@[j].key@ != key@,
            decreases n - i,
        {
            if self.slots[i].key.eq(key) {
                return Some(i);
            }
            i = i + 1;
        }
        None
    }

    /// Drops the slot carrying `key`, if one does.  Models `DEL`.
    pub fn del(&mut self, key: &String)
        requires
            old(self).wf(),
        ensures
            final(self).wf(),
            final(self)@ == old(self)@.remove(key@),
    {
        match self.find_idx(key) {
            Some(i) => {
                proof {
                    lemma_remove_slot(self.slots@, i as int);
                }
                self.slots.remove(i);
            },
            None => {
                proof {
                    assert(self@ =~= self@.remove(key@));
                }
            },
        }
    }

    /// Appends a slot for a key that is not yet present.
    fn push_slot(&mut self, key: String, entry: CacheEntry)
        requires
            old(self).wf(),
            !old(self)@.dom().contains(key@),
        ensures
            final(self).wf(),
            final(self)@ == old(self)@.insert(key@, slot_view(entry)),
    {
        let ghost pre = self.slots@;
        let ghost e = slot_view(entry);
        let ghost k = key@;
        let slot = CacheSlot { key, entry };
        proof {
            lemma_push_slot(pre, slot);
        }
        self.slots.push(slot);
        proof {
            assert(self@ =~= old(self)@.insert(k, e));
        }
    }

    /// Stores a text value with an absolute expiry.  Models `SET key val EX ttl`.
    pub fn set_text_ex(&mut self, key: String, val: String, ttl: u64, now: u64)
        requires
            old(self).wf(),
            now + ttl <= u64::MAX,
        ensures
            final(self).wf(),
            final(self)@ == old(self)@.insert(
                key@,
                (EntryView { value: EntryValue::TextV(val@), expires_at: Some((now + ttl) as u64) }),
            ),
    {
        let ghost k = key@;
        self.del(&key);
        self.push_slot(
            key,
            CacheEntry { value: CacheValue::Text(val), expires_at: Some(now + ttl) },
        );
        proof {
            assert(self@ =~= old(self)@.remove(k).insert(k, self@[k]));
            assert(old(self)@.remove(k).insert(k, self@[k]) =~= old(self)@.insert(k, self@[k]));
        }
    }

    /// Stores a text value without expiry, clearing any previous one.
    /// Models a plain `SET`.
    pub fn set_text(&mut self, key: String, val: String)
        requires
            old(self).wf(),
        ensures
            final(self).wf(),
            final(self)@ == old(self)@.insert(
                key@,
                (EntryView { value: EntryValue::TextV(val@), expires_at: None }),
            ),
    {
        let ghost k = key@;
        self.del(&key);
        self.push_slot(key, CacheEntry { value: CacheValue::Text(val), expires_at: None });
        proof {
            assert(old(self)@.remove(k).insert(k, self@[k]) =~= old(self)@.insert(k, self@[k]));
        }
    }

    /// Whether `key` currently holds a live entry.  Models `EXISTS`.
    pub fn exists_key(&self, key: &String, now: u64) -> (r: bool)
        requires
            self.wf(),
        ensures
            r == self.spec_live(key@, now),
    {
        match self.find_idx(key) {
            Some(i) => {
                proof {
                    lemma_idx_agrees(self.slots@, i as int);
                }
                match self.slots[i].entry.expires_at {
                    Some(t) => now < t,
                    None => true,
                }
            },
            None => false,
        }
    }

    /// The text under `key`, if live and a text.  Models `GET`.
    pub fn get_text(&self, key: &String, now: u64) -> (r: Option<String>)
        requires
            self.wf(),
        ensures
            match r {
                Some(s) => self.spec_text(key@, now) == Some(s@),
                None => self.spec_text(key@, now) is None,
            },
    {
        match self.find_idx(key) {
            Some(i) => {
                proof {
                    lemma_idx_agrees(self.slots@, i as int);
                }
                let live = match self.slots[i].entry.expires_at {
                    Some(t) => now < t,
                    None => true,
                };
                if live {
                    match &self.slots[i].entry.value {
                        CacheValue::Text(s) => Some(s.clone()),
                        CacheValue::List(_) => None,
                    }
                } else {
                    None
                }
            },
            None => None,
        }
    }

    /// Prepends a message to the list under `key`.  A missing or expired
    /// entry becomes a fresh one-element list without expiry; a live list
    /// keeps its expiry; a live text entry is a type error and is left
    /// untouched.  Models `LPUSH`.
    pub fn list_push_front(&mut self, key: String, msg: Message, now: u64) -> (r: Result<
        (),
        AppError,
    >)
        requires
            old(self).wf(),
        ensures
            final(self).wf(),
            !old(self).spec_live(key@, now) ==> r is Ok && final(self)@ == old(self)@.insert(
                key@,
                (EntryView { value: EntryValue::ListV(seq![msg]), expires_at: None }),
            ),
            old(self).spec_live(key@, now) ==> match old(self)@[key@].value {
                EntryValue::ListV(l) => r is Ok && final(self)@ == old(self)@.insert(
                    key@,
                    (EntryView {
                        value: EntryValue::ListV(seq![msg] + l),
                        expires_at: old(self)@[key@].expires_at,
                    }),
                ),
                EntryValue::TextV(_) => r matches Err(e) && e is Cache && final(self)@ == old(self)@,
            },
    {
        let ghost k = key@;
        match self.find_idx(&key) {
            Some(i) => {
                proof {
                    lemma_idx_agrees(self.slots@, i as int);
                }
                let live = match self.slots[i].entry.expires_at {
                    Some(t) => now < t,
                    None => true,
                };
                proof {
                    lemma_remove_slot(self.slots@, i as int);
                }
                let slot = self.slots.remove(i);
                let ghost exp = slot.entry.expires_at;
                if live {
                    match slot.entry.value {
                        CacheValue::List(mut l) => {
                            let ghost l0 = l@;
                            l.insert(0, msg);
                            proof {
                                assert(l@ =~= seq![msg] + l0);
                            }
                            self.push_slot(
                                key,
                                CacheEntry { value: CacheValue::List(l), expires_at: slot.entry.expires_at },
                            );
                            proof {
                                assert(self@ =~= old(self)@.insert(
                                    k,
                                    (EntryView {
                                        value: EntryValue::ListV(seq![msg] + l0),
                                        expires_at: exp,
                                    }),
                                ));
                            }
                            Ok(())
                        },
                        CacheValue::Text(s) => {
                            self.push_slot(
                                key,
                                CacheEntry { value: CacheValue::Text(s), expires_at: slot.entry.expires_at },
                            );
                            proof {
                                assert(self@ =~= old(self)@);
                            }
                            Err(AppError::Cache)
                        },
                    }
                } else {
                    let mut l: Vec<Message> = Vec::new();
                    l.push(msg);
                    proof {
                        assert(l@ =~= seq![msg]);
                    }
                    self.push_slot(key, CacheEntry { value: CacheValue::List(l), expires_at: None });
                    proof {
                        assert(self@ =~= old(self)@.insert(
                            k,
                            (EntryView { value: EntryValue::ListV(seq![msg]), expires_at: None }),
                        ));
                    }
                    Ok(())
                }
            },
            None => {
                let mut l: Vec<Message> = Vec::new();
                l.push(msg);
                proof {
                    assert(l@ =~= seq![msg]);
                }
                self.push_slot(key, CacheEntry { value: CacheValue::List(l), expires_at: None });
                Ok(())
            },
        }
    }

    /// The whole list under `key`, front first.  Models `LRANGE key 0 -1`;
    /// a missing, expired or text entry reads as empty.
    pub fn list_range_all(&self, key: &String, now: u64) -> (r: Vec<Message>)
        requires
            self.wf(),
        ensures
            r@ == self.spec_list(key@, now),
    {
        match self.find_idx(key) {
            Some(i) => {
                proof {
                    lemma_idx_agrees(self.slots@, i as int);
                }
                let live = match self.slots[i].entry.expires_at {
                    Some(t) => now < t,
                    None => true,
                };
                if live {
                    match &self.slots[i].entry.value {
                        CacheValue::List(l) => crate::models::clone_messages(l),
                        CacheValue::Text(_) => Vec::new(),
                    }
                } else {
                    Vec::new()
                }
            },
            None => Vec::new(),
        }
    }

    /// Sets the expiry of a live entry to `now + ttl`; a dead key is left
    /// alone.  Models `EXPIRE`.
    pub fn expire_key(&mut self, key: &String, ttl: u64, now: u64)
        requires
            old(self).wf(),
            now + ttl <= u64::MAX,
        ensures
            final(self).wf(),
            old(self).spec_live(key@, now) ==> final(self)@ == old(self)@.insert(
                key@,
                (EntryView {
                    value: old(self)@[key@].value,
                    expires_at: Some((now + ttl) as u64),
                }),
            ),
            !old(self).spec_live(key@, now) ==> final(self)@ == old(self)@,
    {
        let ghost k = key@;
        match self.find_idx(key) {
            Some(i) => {
                proof {
                    lemma_idx_agrees(self.slots@, i as int);
                }
                let live = match self.slots[i].entry.expires_at {
                    Some(t) => now < t,
                    None => true,
                };
                if live {
                    proof {
                        lemma_remove_slot(self.slots@, i as int);
                    }
                    let slot = self.slots.remove(i);
                    let ghost v = slot_view(slot.entry).value;
                    self.push_slot(
                        slot.key,
                        CacheEntry { value: slot.entry.value, expires_at: Some(now + ttl) },
                    );
                    proof {
                        assert(self@ =~= old(self)@.insert(
                            k,
                            (EntryView { value: v, expires_at: Some((now + ttl) as u64) }),
                        ));
                    }
                }
            },
            None => {},
        }
    }
}

} // verus!
