//! Path → Graph item metadata cache for the WebDAV gateway.
//!
//! Explorer and Finder stat far more often than the app UI does; this cache
//! absorbs that. Entries expire after a short time to live, and every write
//! must invalidate the parent listing (see `invalidate_parent`).

use vstd::prelude::*;
use crate::text::{chars_of, rfind_char, last_index_of, slice_chars, string_of};
use crate::time::{instant_now, millis_since};

verus! {

/// Entries older than this many milliseconds are treated as absent.
pub const CACHE_TTL_MS: u64 = 30000;

/// Cap over cache slots (a directory listing counts as one slot).
pub const MAX_ENTRIES: usize = 5000;

/// A single Graph drive item, reduced to what WebDAV metadata needs.
/// Times are Unix seconds.
#[derive(Debug, Clone)]
pub struct CachedItem {
    pub id: String,
    pub name: String,
    pub size: u64,
    pub is_dir: bool,
    pub mime: Option<String>,
    pub etag: Option<String>,
    pub modified: Option<i64>,
    pub created: Option<i64>,
}

/// The metadata of one path, stored at clock reading `at` (milliseconds).
#[derive(Debug)]
pub struct ItemSlot {
    pub key: String,
    pub item: CachedItem,
    pub at: u64,
}

/// The listing of one directory, stored at clock reading `at`.
#[derive(Debug)]
pub struct ListingSlot {
    pub key: String,
    pub items: Vec<CachedItem>,
    pub at: u64,
}

/// Path-keyed cache. Keys are canonical relative paths: `""` is the mount
/// root, `"a/b"` a nested directory; never a leading slash.
pub struct PathCache {
    items: Vec<ItemSlot>,
    children: Vec<ListingSlot>,
    lru: Vec<String>,
    clock: std::time::Instant,
}

/// The entry stored for `key` among item slots.
pub open spec fn item_entry(slots: Seq<ItemSlot>, key: Seq<char>) -> Option<(CachedItem, u64)> {
    if exists|i: int| 0 <= i < slots.len() && #[trigger] slots[i].key@ == key {
        let i = choose|i: int| 0 <= i < slots.len() && #[trigger] slots[i].key@ == key;
        Some((slots[i].item, slots[i].at))
    } else {
        None
    }
}

/// The listing stored for `key` among listing slots.
pub open spec fn listing_entry(slots: Seq<ListingSlot>, key: Seq<char>) -> Option<(Seq<CachedItem>, u64)> {
    if exists|i: int| 0 <= i < slots.len() && #[trigger] slots[i].key@ == key {
        let i = choose|i: int| 0 <= i < slots.len() && #[trigger] slots[i].key@ == key;
        Some((slots[i].items@, slots[i].at))
    } else {
        None
    }
}

/// Whether something stored at `at` is still fresh at `now` (the age
/// saturates at zero, as `Instant::elapsed` does).
pub open spec fn is_fresh(at: u64, now: u64) -> bool {
    now <= at || now - at <= 30000
}

/// What a read of the item metadata for `key` at `now` returns.
pub open spec fn fresh_item(slots: Seq<ItemSlot>, key: Seq<char>, now: u64) -> Option<CachedItem> {
    match item_entry(slots, key) {
        Some((item, at)) => if is_fresh(at, now) {
            Some(item)
        } else {
            None
        },
        None => None,
    }
}

/// What a read of the listing of `key` at `now` returns.
pub open spec fn fresh_listing(slots: Seq<ListingSlot>, key: Seq<char>, now: u64) -> Option<Seq<CachedItem>> {
    match listing_entry(slots, key) {
        Some((items, at)) => if is_fresh(at, now) {
            Some(items)
        } else {
            None
        },
        None => None,
    }
}

/// The parent directory of a canonical path: everything before the last
/// `/`, or the root.
pub open spec fn parent_of(path: Seq<char>) -> Seq<char> {
    match last_index_of(path, '/') {
        Some(i) => path.subrange(0, i),
        None => Seq::empty(),
    }
}

/// A slash-free tail does not move the last position of `/`.
proof fn lemma_last_slash_skips(x: Seq<char>, n: Seq<char>)
    requires
        forall|i: int| 0 <= i < n.len() ==> n[i] != '/',
    ensures
        last_index_of(x + n, '/') == last_index_of(x, '/'),
    decreases n.len(),
{
    if n.len() == 0 {
        assert(x + n =~= x);
    } else {
        assert((x + n).drop_last() =~= x + n.drop_last());
        assert((x + n).last() == n[n.len() - 1]);
        lemma_last_slash_skips(x, n.drop_last());
    }
}

/// The parent of a path is the folder holding its last segment: for any
/// folder `d` and any name `n` without `/`, the parent of `d/n` is `d`,
/// and a bare name's parent is the root (the empty path). So
/// `invalidate_parent(d/n)` drops the listing of `d` itself.
pub proof fn lemma_parent_of_child(d: Seq<char>, n: Seq<char>)
    requires
        forall|i: int| 0 <= i < n.len() ==> n[i] != '/',
    ensures
        parent_of(d + seq!['/'] + n) == d,
        parent_of(n) == Seq::<char>::empty(),
{
    let x = d + seq!['/'];
    lemma_last_slash_skips(x, n);
    assert(x.drop_last() =~= d);
    assert(last_index_of(x, '/') == Some(d.len() as int));
    assert((d + seq!['/'] + n).subrange(0, d.len() as int) =~= d);
    lemma_last_slash_skips(Seq::empty(), n);
    assert(Seq::<char>::empty() + n =~= n);
}

pub open spec fn item_keys_unique(slots: Seq<ItemSlot>) -> bool {
    forall|i: int, j: int|
        0 <= i < slots.len() && 0 <= j < slots.len() && i != j ==> #[trigger] slots[i].key@
            != #[trigger] slots[j].key@
}

pub open spec fn listing_keys_unique(slots: Seq<ListingSlot>) -> bool {
    forall|i: int, j: int|
        0 <= i < slots.len() && 0 <= j < slots.len() && i != j ==> #[trigger] slots[i].key@
            != #[trigger] slots[j].key@
}

/// `after` is the recency list `before` with `key` moved (or added) to
/// the most recently used end.
pub open spec fn touched(before: Seq<String>, after: Seq<String>, key: Seq<char>) -> bool {
    ||| exists|i: int|
        0 <= i < before.len() && #[trigger] before[i]@ == key && after == before.remove(i).push(after.last())
    ||| !recorded(before, key) && after == before.push(after.last())
}

/// After `key` was touched, the `n` least recently used keys other than
/// `key` are the keys other than `key` among the `m` least recently used
/// before, for some `m`.
proof fn lemma_touched_prefix(l0: Seq<String>, l1: Seq<String>, key: Seq<char>, n: int) -> (m: int)
    requires
        touched(l0, l1, key),
        0 <= n < l1.len(),
    ensures
        m >= 0,
        forall|k: Seq<char>| k != key ==> #[trigger] in_prefix(l1, n, k) == in_prefix(l0, m, k),
{
    if exists|i: int| 0 <= i < l0.len() && #[trigger] l0[i]@ == key && l1 == l0.remove(i).push(l1.last()) {
        let i = choose|i: int| 0 <= i < l0.len() && #[trigger] l0[i]@ == key && l1 == l0.remove(i).push(l1.last());
        let m = if n <= i { n } else { n + 1 };
        assert forall|k: Seq<char>| k != key implies #[trigger] in_prefix(l1, n, k) == in_prefix(l0, m, k) by {
            if in_prefix(l1, n, k) {
                let j = choose|j: int| 0 <= j < n && #[trigger] l1[j]@ == k;
                if j < i {
                    assert(l0[j] == l1[j]);
                } else {
                    assert(l0[j + 1] == l1[j]);
                }
            }
            if in_prefix(l0, m, k) {
                let j = choose|j: int| 0 <= j < m && #[trigger] l0[j]@ == k;
                assert(j != i);
                if j < i {
                    assert(l1[j] == l0[j]);
                } else {
                    assert(l1[j - 1] == l0[j]);
                }
            }
        }
        m
    } else {
        assert forall|k: Seq<char>| k != key implies #[trigger] in_prefix(l1, n, k) == in_prefix(l0, n, k) by {
            if in_prefix(l1, n, k) {
                let j = choose|j: int| 0 <= j < n && #[trigger] l1[j]@ == k;
                assert(l0[j] == l1[j]);
            }
            if in_prefix(l0, n, k) {
                let j = choose|j: int| 0 <= j < n && #[trigger] l0[j]@ == k;
                assert(l1[j] == l0[j]);
            }
        }
        n
    }
}

/// `after` is `before` where, apart from `kept`, exactly the keys among
/// the `m` least recently used of `before` have lost their metadata and
/// their listing, and every other key kept both.
pub open spec fn lru_evicted(before: PathCache, after: PathCache, kept: Seq<char>, m: int) -> bool {
    &&& forall|k: Seq<char>|
        k != kept ==> #[trigger] after.item_of(k) == (if in_prefix(before.recency(), m, k) {
            None
        } else {
            before.item_of(k)
        })
    &&& forall|k: Seq<char>|
        k != kept ==> #[trigger] after.listing_of(k) == (if in_prefix(before.recency(), m, k) {
            None
        } else {
            before.listing_of(k)
        })
}

/// Whether `k` is in the recency list.
pub open spec fn recorded(keys: Seq<String>, k: Seq<char>) -> bool {
    exists|j: int| 0 <= j < keys.len() && #[trigger] keys[j]@ == k
}

/// Whether `k` is among the first `n` keys.
pub open spec fn in_prefix(keys: Seq<String>, n: int, k: Seq<char>) -> bool {
    exists|j: int| 0 <= j < n && #[trigger] keys[j]@ == k
}

/// `after` is `before` with its `n` least recently used keys evicted, and
/// the last of them had to go: without evicting it the cache was over the
/// cap.
pub closed spec fn evicted_prefix(before: PathCache, after: PathCache, n: int) -> bool {
    &&& forall|k: Seq<char>|
        #[trigger] after.item_of(k) == (if in_prefix(before.lru@, n, k) {
            None
        } else {
            before.item_of(k)
        })
    &&& forall|k: Seq<char>|
        #[trigger] after.listing_of(k) == (if in_prefix(before.lru@, n, k) {
            None
        } else {
            before.listing_of(k)
        })
    &&& n > 0 ==> after.slot_count() + before.slots_of(before.lru@[n - 1]@) > MAX_ENTRIES
}

pub open spec fn keys_distinct(keys: Seq<String>) -> bool {
    forall|i: int, j: int|
        0 <= i < keys.len() && 0 <= j < keys.len() && i != j ==> #[trigger] keys[i]@
            != #[trigger] keys[j]@
}

proof fn lemma_item_entry_at(slots: Seq<ItemSlot>, i: int)
    requires
        item_keys_unique(slots),
        0 <= i < slots.len(),
    ensures
        item_entry(slots, slots[i].key@) == Some((slots[i].item, slots[i].at)),
{
    let k = slots[i].key@;
    let j = choose|j: int| 0 <= j < slots.len() && #[trigger] slots[j].key@ == k;
    assert(slots[j].key@ == slots[i].key@);
}

proof fn lemma_listing_entry_at(slots: Seq<ListingSlot>, i: int)
    requires
        listing_keys_unique(slots),
        0 <= i < slots.len(),
    ensures
        listing_entry(slots, slots[i].key@) == Some((slots[i].items@, slots[i].at)),
{
    let k = slots[i].key@;
    let j = choose|j: int| 0 <= j < slots.len() && #[trigger] slots[j].key@ == k;
    assert(slots[j].key@ == slots[i].key@);
}

proof fn lemma_item_remove(slots: Seq<ItemSlot>, i: int)
    requires
        item_keys_unique(slots),
        0 <= i < slots.len(),
    ensures
        item_keys_unique(slots.remove(i)),
        forall|k: Seq<char>|
            #[trigger] item_entry(slots.remove(i), k) == if k == slots[i].key@ {
                None
            } else {
                item_entry(slots, k)
            },
{
    let r = slots.remove(i);
    assert forall|k: Seq<char>| #[trigger] item_entry(r, k) == if k == slots[i].key@ {
        None
    } else {
        item_entry(slots, k)
    } by {
        if k == slots[i].key@ {
            if exists|j: int| 0 <= j < r.len() && #[trigger] r[j].key@ == k {
                let j = choose|j: int| 0 <= j < r.len() && #[trigger] r[j].key@ == k;
                if j < i {
                    assert(slots[j].key@ == slots[i].key@);
                } else {
                    assert(slots[j + 1].key@ == slots[i].key@);
                }
            }
        } else {
            if exists|j: int| 0 <= j < slots.len() && #[trigger] slots[j].key@ == k {
                let j = choose|j: int| 0 <= j < slots.len() && #[trigger] slots[j].key@ == k;
                lemma_item_entry_at(slots, j);
                let j2 = if j < i {
                    j
                } else {
                    j - 1
                };
                assert(r[j2] == slots[j]);
                assert(item_keys_unique(r));
                lemma_item_entry_at(r, j2);
            } else {
                if exists|j: int| 0 <= j < r.len() && #[trigger] r[j].key@ == k {
                    let j = choose|j: int| 0 <= j < r.len() && #[trigger] r[j].key@ == k;
                    if j < i {
                        assert(slots[j].key@ == k);
                    } else {
                        assert(slots[j + 1].key@ == k);
                    }
                }
            }
        }
    }
}

proof fn lemma_listing_remove(slots: Seq<ListingSlot>, i: int)
    requires
        listing_keys_unique(slots),
        0 <= i < slots.len(),
    ensures
        listing_keys_unique(slots.remove(i)),
        forall|k: Seq<char>|
            #[trigger] listing_entry(slots.remove(i), k) == if k == slots[i].key@ {
                None
            } else {
                listing_entry(slots, k)
            },
{
    let r = slots.remove(i);
    assert forall|k: Seq<char>| #[trigger] listing_entry(r, k) == if k == slots[i].key@ {
        None
    } else {
        listing_entry(slots, k)
    } by {
        if k == slots[i].key@ {
            if exists|j: int| 0 <= j < r.len() && #[trigger] r[j].key@ == k {
                let j = choose|j: int| 0 <= j < r.len() && #[trigger] r[j].key@ == k;
                if j < i {
                    assert(slots[j].key@ == slots[i].key@);
                } else {
                    assert(slots[j + 1].key@ == slots[i].key@);
                }
            }
        } else {
            if exists|j: int| 0 <= j < slots.len() && #[trigger] slots[j].key@ == k {
                let j = choose|j: int| 0 <= j < slots.len() && #[trigger] slots[j].key@ == k;
                lemma_listing_entry_at(slots, j);
                let j2 = if j < i {
                    j
                } else {
                    j - 1
                };
                assert(r[j2] == slots[j]);
                assert(listing_keys_unique(r));
                lemma_listing_entry_at(r, j2);
            } else {
                if exists|j: int| 0 <= j < r.len() && #[trigger] r[j].key@ == k {
                    let j = choose|j: int| 0 <= j < r.len() && #[trigger] r[j].key@ == k;
                    if j < i {
                        assert(slots[j].key@ == k);
                    } else {
                        assert(slots[j + 1].key@ == k);
                    }
                }
            }
        }
    }
}

/// A copy of a string equal to it.
fn copy_string(s: &String) -> (r: String)
    ensures
        r == *s,
{
    s.clone()
}

fn copy_opt_string(o: &Option<String>) -> (r: Option<String>)
    ensures
        r == *o,
{
    match o {
        Some(s) => Some(copy_string(s)),
        None => None,
    }
}

/// A copy of an item equal to it.
pub fn copy_item(it: &CachedItem) -> (r: CachedItem)
    ensures
        r == *it,
{
    CachedItem {
        id: copy_string(&it.id),
        name: copy_string(&it.name),
        size: it.size,
        is_dir: it.is_dir,
        mime: copy_opt_string(&it.mime),
        etag: copy_opt_string(&it.etag),
        modified: it.modified,
        created: it.created,
    }
}

/// A copy of a listing equal to it.
pub fn copy_items(v: &Vec<CachedItem>) -> (r: Vec<CachedItem>)
    ensures
        r@ == v@,
{
    let mut r: Vec<CachedItem> = Vec::new();
    let mut i: usize = 0;
    while i < v.len()
        invariant
            i <= v.len(),
            r@ == v@.take(i as int),
        decreases v.len() - i,
    {
        r.push(copy_item(&v[i]));
        proof {
            assert(r@ =~= v@.take(i + 1));
        }
        i = i + 1;
    }
    proof {
        assert(v@.take(v@.len() as int) =~= v@);
    }
    r
}

fn find_item_slot(slots: &Vec<ItemSlot>, key: &String) -> (r: Option<usize>)
    ensures
        match r {
            Some(i) => i < slots@.len() && slots@[i as int].key@ == key@,
            None => forall|j: int| 0 <= j < slots@.len() ==> #[trigger] slots@[j].key@ != key@,
        },
{
    let mut i: usize = 0;
    while i < slots.len()
        invariant
            i <= slots@.len(),
            forall|j: int| 0 <= j < i ==> #[trigger] slots@[j].key@ != key@,
        decreases slots.len() - i,
    {
        if slots[i].key == *key {
            return Some(i);
        }
        i = i + 1;
    }
    None
}

fn find_listing_slot(slots: &Vec<ListingSlot>, key: &String) -> (r: Option<usize>)
    ensures
        match r {
            Some(i) => i < slots@.len() && slots@[i as int].key@ == key@,
            None => forall|j: int| 0 <= j < slots@.len() ==> #[trigger] slots@[j].key@ != key@,
        },
{
    let mut i: usize = 0;
    while i < slots.len()
        invariant
            i <= slots@.len(),
            forall|j: int| 0 <= j < i ==> #[trigger] slots@[j].key@ != key@,
        decreases slots.len() - i,
    {
        if slots[i].key == *key {
            return Some(i);
        }
        i = i + 1;
    }
    None
}

fn find_key(keys: &Vec<String>, key: &String) -> (r: Option<usize>)
    ensures
        match r {
            Some(i) => i < keys@.len() && keys@[i as int]@ == key@,
            None => forall|j: int| 0 <= j < keys@.len() ==> #[trigger] keys@[j]@ != key@,
        },
{
    let mut i: usize = 0;
    while i < keys.len()
        invariant
            i <= keys@.len(),
            forall|j: int| 0 <= j < i ==> #[trigger] keys@[j]@ != key@,
        decreases keys.len() - i,
    {
        if keys[i] == *key {
            return Some(i);
        }
        i = i + 1;
    }
    None
}

impl PathCache {
    /// Item slots, listing slots and recency list each hold a key at most
    /// once, and every key with a slot is in the recency list.
    pub closed spec fn shape(&self) -> bool {
        &&& item_keys_unique(self.items@)
        &&& listing_keys_unique(self.children@)
        &&& keys_distinct(self.lru@)
        &&& forall|k: Seq<char>| #[trigger] self.item_of(k) is Some ==> recorded(self.lru@, k)
        &&& forall|k: Seq<char>| #[trigger] self.listing_of(k) is Some ==> recorded(self.lru@, k)
    }

    /// `shape`, except that `key` may have slots while out of the recency
    /// list (the moment between forgetting a key and dropping its slots).
    closed spec fn shape_except(&self, key: Seq<char>) -> bool {
        &&& item_keys_unique(self.items@)
        &&& listing_keys_unique(self.children@)
        &&& keys_distinct(self.lru@)
        &&& forall|k: Seq<char>| #[trigger] self.item_of(k) is Some && k != key ==> recorded(self.lru@, k)
        &&& forall|k: Seq<char>| #[trigger] self.listing_of(k) is Some && k != key ==> recorded(self.lru@, k)
    }

    /// A well-formed cache (see `shape`) within its cap of `MAX_ENTRIES`
    /// slots.
    pub closed spec fn wf(&self) -> bool {
        &&& self.shape()
        &&& self.slot_count() <= MAX_ENTRIES
    }

    /// The recency list, least recently used first.
    pub closed spec fn recency(&self) -> Seq<String> {
        self.lru@
    }

    /// The cache law: a cache reached through its operations never holds
    /// more than `MAX_ENTRIES` slots (metadata and listings together).
    pub proof fn lemma_within_cap(&self)
        requires
            self.wf(),
        ensures
            self.slot_count() <= MAX_ENTRIES,
    {
    }

    /// With a single key in the recency list, the cache holds at most its
    /// two slots.
    proof fn lemma_single_key_slots(&self)
        requires
            self.shape(),
            self.lru@.len() == 1,
        ensures
            self.slot_count() <= 2,
    {
        if self.items@.len() >= 2 {
            lemma_item_entry_at(self.items@, 0);
            lemma_item_entry_at(self.items@, 1);
            assert(self.item_of(self.items@[0].key@) is Some);
            assert(self.item_of(self.items@[1].key@) is Some);
            assert(recorded(self.lru@, self.items@[0].key@));
            assert(recorded(self.lru@, self.items@[1].key@));
            assert(self.items@[0].key@ == self.items@[1].key@);
        }
        if self.children@.len() >= 2 {
            lemma_listing_entry_at(self.children@, 0);
            lemma_listing_entry_at(self.children@, 1);
            assert(self.listing_of(self.children@[0].key@) is Some);
            assert(self.listing_of(self.children@[1].key@) is Some);
            assert(recorded(self.lru@, self.children@[0].key@));
            assert(recorded(self.lru@, self.children@[1].key@));
            assert(self.children@[0].key@ == self.children@[1].key@);
        }
    }

    /// The stored item metadata of a path, with the clock reading it was
    /// stored at.
    pub closed spec fn item_of(&self, key: Seq<char>) -> Option<(CachedItem, u64)> {
        item_entry(self.items@, key)
    }

    /// The stored listing of a directory, with its clock reading.
    pub closed spec fn listing_of(&self, key: Seq<char>) -> Option<(Seq<CachedItem>, u64)> {
        listing_entry(self.children@, key)
    }

    /// The slots `key` occupies: its metadata and its listing, one each.
    pub closed spec fn slots_of(&self, key: Seq<char>) -> int {
        (if self.item_of(key) is Some {
            1int
        } else {
            0int
        }) + (if self.listing_of(key) is Some {
            1int
        } else {
            0int
        })
    }

    /// Number of occupied slots.
    pub closed spec fn slot_count(&self) -> nat {
        self.items@.len() + self.children@.len()
    }

    /// What reading the metadata of `key` at clock reading `now` returns.
    pub open spec fn read_item(&self, key: Seq<char>, now: u64) -> Option<CachedItem> {
        match self.item_of(key) {
            Some((item, at)) => if is_fresh(at, now) {
                Some(item)
            } else {
                None
            },
            None => None,
        }
    }

    /// What reading the listing of `key` at clock reading `now` returns.
    pub open spec fn read_listing(&self, key: Seq<char>, now: u64) -> Option<Seq<CachedItem>> {
        match self.listing_of(key) {
            Some((items, at)) => if is_fresh(at, now) {
                Some(items)
            } else {
                None
            },
            None => None,
        }
    }

    /// An empty cache.
    pub fn new() -> (c: PathCache)
        ensures
            c.wf(),
            forall|k: Seq<char>| c.item_of(k) is None && c.listing_of(k) is None,
            c.slot_count() == 0,
    {
        PathCache { items: Vec::new(), children: Vec::new(), lru: Vec::new(), clock: instant_now() }
    }

    /// The cache's clock: milliseconds since it was created.
    fn now(&self) -> u64 {
        millis_since(&self.clock)
    }

    /// Moves `key` to the most recently used end.
    fn touch(&mut self, key: &String)
        requires
            old(self).shape(),
        ensures
            final(self).shape(),
            final(self).lru@.len() > 0,
            final(self).lru@.last()@ == key@,
            final(self).items == old(self).items,
            final(self).children == old(self).children,
            forall|k: Seq<char>| recorded(old(self).lru@, k) ==> #[trigger] recorded(final(self).lru@, k),
            touched(old(self).lru@, final(self).lru@, key@),
    {
        let ghost l0 = self.lru@;
        match find_key(&self.lru, key) {
            Some(i) => {
                self.lru.remove(i);
                proof {
                    assert forall|k: Seq<char>| recorded(l0, k) && k != key@ implies #[trigger] recorded(self.lru@, k) by {
                        let j = choose|j: int| 0 <= j < l0.len() && #[trigger] l0[j]@ == k;
                        if j < i {
                            assert(self.lru@[j] == l0[j]);
                        } else {
                            assert(j != i);
                            assert(self.lru@[j - 1] == l0[j]);
                        }
                    }
                    assert(self.lru@ == l0.remove(i as int));
                    assert(self.lru@.len() < l0.len());
                }
            },
            None => {},
        }
        let ghost l1 = self.lru@;
        self.lru.push(copy_string(key));
        proof {
            if l1 == l0 {
                assert(!recorded(l0, key@));
                assert(self.lru@ =~= l0.push(self.lru@.last()));
            } else {
                let i = choose|i: int| 0 <= i < l0.len() && l0[i]@ == key@ && l1 == l0.remove(i);
                assert(self.lru@ =~= l0.remove(i).push(self.lru@.last()));
            }
        }
        proof {
            assert forall|k: Seq<char>| recorded(l0, k) implies #[trigger] recorded(self.lru@, k) by {
                if k == key@ {
                    assert(self.lru@[self.lru@.len() - 1]@ == k);
                } else {
                    if l1 == l0 {
                        let j = choose|j: int| 0 <= j < l0.len() && #[trigger] l0[j]@ == k;
                        assert(self.lru@[j] == l0[j]);
                    } else {
                        assert(recorded(l1, k));
                        let j = choose|j: int| 0 <= j < l1.len() && #[trigger] l1[j]@ == k;
                        assert(self.lru@[j] == l1[j]);
                    }
                }
            }
            let l = self.lru@;
            assert forall|i: int, j: int|
                0 <= i < l.len() && 0 <= j < l.len() && i != j implies #[trigger] l[i]@
                != #[trigger] l[j]@ by {
                if i == l.len() - 1 || j == l.len() - 1 {
                } else {
                }
            }
        }
        proof {
            assert forall|k: Seq<char>| #[trigger] self.item_of(k) is Some implies recorded(self.lru@, k) by {
                assert(old(self).item_of(k) is Some);
                assert(recorded(l0, k));
            }
            assert forall|k: Seq<char>| #[trigger] self.listing_of(k) is Some implies recorded(self.lru@, k) by {
                assert(old(self).listing_of(k) is Some);
                assert(recorded(l0, k));
            }
        }
    }

    fn remove_item_key(&mut self, key: &String)
        requires
            old(self).shape_except(key@),
        ensures
            final(self).shape_except(key@),
            old(self).shape() ==> final(self).shape(),
            final(self).children == old(self).children,
            final(self).lru == old(self).lru,
            forall|k: Seq<char>|
                #[trigger] final(self).item_of(k) == if k == key@ {
                    None
                } else {
                    old(self).item_of(k)
                },
            final(self).items@.len() <= old(self).items@.len(),
            final(self).items@.len() + (if old(self).item_of(key@) is Some {
                1int
            } else {
                0int
            }) == old(self).items@.len(),
    {
        match find_item_slot(&self.items, key) {
            Some(i) => {
                proof {
                    lemma_item_remove(self.items@, i as int);
                    assert(self.items@[i as int].key@ == key@);
                    assert(self.item_of(key@) is Some);
                }
                self.items.remove(i);
            },
            None => {
                proof {
                    assert forall|k: Seq<char>| #[trigger] item_entry(self.items@, k) == if k
                        == key@ {
                        None
                    } else {
                        item_entry(self.items@, k)
                    } by {}
                }
            },
        }
        proof {
            assert forall|k: Seq<char>| #[trigger] self.item_of(k) is Some && k != key@ implies recorded(self.lru@, k) by {
                assert(old(self).item_of(k) is Some);
            }
            assert forall|k: Seq<char>| #[trigger] self.listing_of(k) is Some && k != key@ implies recorded(self.lru@, k) by {
                assert(old(self).listing_of(k) is Some);
            }
            if old(self).shape() {
                assert forall|k: Seq<char>| #[trigger] self.item_of(k) is Some implies recorded(self.lru@, k) by {
                    assert(old(self).item_of(k) is Some);
                }
                assert forall|k: Seq<char>| #[trigger] self.listing_of(k) is Some implies recorded(self.lru@, k) by {
                    assert(old(self).listing_of(k) is Some);
                }
            }
        }
    }

    fn remove_listing_key(&mut self, key: &String)
        requires
            old(self).shape_except(key@),
        ensures
            final(self).shape_except(key@),
            old(self).shape() ==> final(self).shape(),
            final(self).items == old(self).items,
            final(self).lru == old(self).lru,
            forall|k: Seq<char>|
                #[trigger] final(self).listing_of(k) == if k == key@ {
                    None
                } else {
                    old(self).listing_of(k)
                },
            final(self).children@.len() <= old(self).children@.len(),
            final(self).children@.len() + (if old(self).listing_of(key@) is Some {
                1int
            } else {
                0int
            }) == old(self).children@.len(),
    {
        match find_listing_slot(&self.children, key) {
            Some(i) => {
                proof {
                    lemma_listing_remove(self.children@, i as int);
                    assert(self.children@[i as int].key@ == key@);
                    assert(self.listing_of(key@) is Some);
                }
                self.children.remove(i);
            },
            None => {
                proof {
                    assert forall|k: Seq<char>| #[trigger] listing_entry(self.children@, k) == if k
                        == key@ {
                        None
                    } else {
                        listing_entry(self.children@, k)
                    } by {}
                }
            },
        }
        proof {
            assert forall|k: Seq<char>| #[trigger] self.listing_of(k) is Some && k != key@ implies recorded(self.lru@, k) by {
                assert(old(self).listing_of(k) is Some);
            }
            assert forall|k: Seq<char>| #[trigger] self.item_of(k) is Some && k != key@ implies recorded(self.lru@, k) by {
                assert(old(self).item_of(k) is Some);
            }
            if old(self).shape() {
                assert forall|k: Seq<char>| #[trigger] self.listing_of(k) is Some implies recorded(self.lru@, k) by {
                    assert(old(self).listing_of(k) is Some);
                }
                assert forall|k: Seq<char>| #[trigger] self.item_of(k) is Some implies recorded(self.lru@, k) by {
                    assert(old(self).item_of(k) is Some);
                }
            }
        }
    }

    fn forget_key(&mut self, key: &String)
        requires
            keys_distinct(old(self).lru@),
        ensures
            keys_distinct(final(self).lru@),
            forall|j: int| 0 <= j < final(self).lru@.len() ==> #[trigger] final(self).lru@[j]@ != key@,
            final(self).items == old(self).items,
            final(self).children == old(self).children,
            forall|k: Seq<char>|
                recorded(old(self).lru@, k) && k != key@ ==> #[trigger] recorded(final(self).lru@, k),
    {
        let ghost l0 = self.lru@;
        match find_key(&self.lru, key) {
            Some(i) => {
                self.lru.remove(i);
                proof {
                    assert forall|k: Seq<char>| recorded(l0, k) && k != key@ implies #[trigger] recorded(self.lru@, k) by {
                        let j = choose|j: int| 0 <= j < l0.len() && #[trigger] l0[j]@ == k;
                        if j < i {
                            assert(self.lru@[j] == l0[j]);
                        } else {
                            assert(j != i);
                            assert(self.lru@[j - 1] == l0[j]);
                        }
                    }
                    assert forall|j: int| 0 <= j < self.lru@.len() implies #[trigger] self.lru@[j]@
                        != key@ by {
                        if j < i {
                            assert(old(self).lru@[j]@ != old(self).lru@[i as int]@);
                        } else {
                            assert(old(self).lru@[j + 1]@ != old(self).lru@[i as int]@);
                        }
                    }
                }
            },
            None => {},
        }
    }

    /// Evicts least recently used keys while over the cap. The most recent
    /// key (the one just written, at the back of the recency list) is never
    /// evicted: with it the only key left the cache holds at most two
    /// slots. The keys evicted are the `n` least recently used ones, for
    /// the least `n` that brings the slots within the cap (or leaves the
    /// most recent key alone); each loses its metadata and its listing.
    fn evict_while_over_cap(&mut self)
        requires
            old(self).shape(),
            old(self).lru@.len() > 0,
        ensures
            final(self).wf(),
            final(self).lru@.len() > 0,
            final(self).lru@.last()@ == old(self).lru@.last()@,
            forall|k: Seq<char>|
                #![trigger final(self).item_of(k)]
                k == old(self).lru@.last()@ ==> final(self).item_of(k) == old(self).item_of(k),
            forall|k: Seq<char>|
                #![trigger final(self).listing_of(k)]
                k == old(self).lru@.last()@ ==> final(self).listing_of(k) == old(self).listing_of(k),
            forall|k: Seq<char>|
                #[trigger] final(self).item_of(k) == old(self).item_of(k) || final(self).item_of(
                    k,
                ) is None,
            forall|k: Seq<char>|
                #[trigger] final(self).listing_of(k) == old(self).listing_of(k)
                    || final(self).listing_of(k) is None,
            final(self).slot_count() <= MAX_ENTRIES || final(self).lru@.len() == 1,
            exists|n: int|
                #![trigger old(self).lru@.skip(n)]
                0 <= n < old(self).lru@.len() && final(self).lru@ == old(self).lru@.skip(n)
                    && evicted_prefix(*old(self), *final(self), n),
    {
        let ghost last = self.lru@.last()@;
        let ghost start = *self;
        let ghost mut n: int = 0;
        proof {
            assert(start.lru@.skip(0) =~= start.lru@);
            assert forall|k: Seq<char>| #[trigger] self.item_of(k) == (if in_prefix(start.lru@, 0, k) {
                None
            } else {
                start.item_of(k)
            }) by {}
            assert forall|k: Seq<char>| #[trigger] self.listing_of(k) == (if in_prefix(start.lru@, 0, k) {
                None
            } else {
                start.listing_of(k)
            }) by {}
        }
        while (self.items.len() > MAX_ENTRIES || self.children.len() > MAX_ENTRIES - self.items.len())
            && self.lru.len() > 1
            invariant
                self.shape(),
                self.lru@.len() > 0,
                self.lru@.last()@ == last,
                start.shape(),
                forall|k: Seq<char>|
                    #![trigger self.item_of(k)]
                    k == last ==> self.item_of(k) == start.item_of(k),
                forall|k: Seq<char>|
                    #![trigger self.listing_of(k)]
                    k == last ==> self.listing_of(k) == start.listing_of(k),
                forall|k: Seq<char>|
                    #[trigger] self.item_of(k) == start.item_of(k) || self.item_of(k) is None,
                forall|k: Seq<char>|
                    #[trigger] self.listing_of(k) == start.listing_of(k) || self.listing_of(k) is None,
                0 <= n < start.lru@.len(),
                self.lru@ == start.lru@.skip(n),
                evicted_prefix(start, *self, n),
            decreases self.lru@.len(),
        {
            proof {
                assert(self.lru@[0]@ != self.lru@[self.lru@.len() - 1]@);
                assert(self.slot_count() > MAX_ENTRIES);
            }
            let ghost head = *self;
            let ghost prev = self.lru@;
            let key = self.lru.remove(0);
            proof {
                assert(key == start.lru@[n]);
                assert(self.lru@.last() == prev.last()) by {
                    assert(self.lru@.last() == self.lru@[self.lru@.len() - 1]);
                }
                assert forall|i: int, j: int|
                    0 <= i < self.lru@.len() && 0 <= j < self.lru@.len() && i != j implies #[trigger] self.lru@[i]@
                    != #[trigger] self.lru@[j]@ by {
                    assert(self.lru@[i] == prev[i + 1]);
                    assert(self.lru@[j] == prev[j + 1]);
                }
                assert(self.lru@ =~= start.lru@.skip(n + 1));
                assert forall|k: Seq<char>| #[trigger] self.item_of(k) is Some && k != key@ implies recorded(self.lru@, k) by {
                    assert(head.item_of(k) is Some);
                    assert(recorded(prev, k));
                    let j = choose|j: int| 0 <= j < prev.len() && #[trigger] prev[j]@ == k;
                    assert(j != 0);
                    assert(self.lru@[j - 1] == prev[j]);
                }
                assert forall|k: Seq<char>| #[trigger] self.listing_of(k) is Some && k != key@ implies recorded(self.lru@, k) by {
                    assert(head.listing_of(k) is Some);
                    assert(recorded(prev, k));
                    let j = choose|j: int| 0 <= j < prev.len() && #[trigger] prev[j]@ == k;
                    assert(j != 0);
                    assert(self.lru@[j - 1] == prev[j]);
                }
                assert(self.shape_except(key@));
                assert(!in_prefix(start.lru@, n, key@)) by {
                    if in_prefix(start.lru@, n, key@) {
                        let j = choose|j: int| 0 <= j < n && #[trigger] start.lru@[j]@ == key@;
                        assert(start.lru@[j]@ != start.lru@[n]@);
                    }
                }
                assert(head.item_of(key@) == start.item_of(key@));
                assert(head.listing_of(key@) == start.listing_of(key@));
            }
            let ghost s1 = *self;
            self.remove_item_key(&key);
            let ghost s2 = *self;
            self.remove_listing_key(&key);
            proof {
                assert(s2.item_of(key@) is None);
                assert(self.items == s2.items);
                assert(self.item_of(key@) is None);
                assert(self.listing_of(key@) is None);
                assert(self.shape());
                assert(key@ != last);
                assert(head.item_of(last) == start.item_of(last));
                assert(head.listing_of(last) == start.listing_of(last));
                assert(s1.items == head.items);
                assert(s1.children == head.children);
                assert(s2.item_of(last) == s1.item_of(last));
                assert(self.items == s2.items);
                assert(s2.children == s1.children);
                assert(self.listing_of(last) == s2.listing_of(last));
                assert forall|k: Seq<char>| #[trigger] self.item_of(k) == start.item_of(k)
                    || self.item_of(k) is None by {
                    assert(s2.item_of(k) == if k == key@ { None } else { s1.item_of(k) });
                    assert(head.item_of(k) == start.item_of(k) || head.item_of(k) is None);
                    assert(s1.items == head.items);
                }
                assert forall|k: Seq<char>| #[trigger] self.listing_of(k) == start.listing_of(k)
                    || self.listing_of(k) is None by {
                    assert(self.listing_of(k) == if k == key@ { None } else { s2.listing_of(k) });
                    assert(head.listing_of(k) == start.listing_of(k) || head.listing_of(k) is None);
                    assert(s1.children == head.children);
                }
                assert forall|k: Seq<char>|
                    in_prefix(start.lru@, n + 1, k) == (in_prefix(start.lru@, n, k) || k == key@) by {
                    if k == key@ {
                        assert(start.lru@[n]@ == k);
                    }
                    if in_prefix(start.lru@, n + 1, k) && k != key@ {
                        let j = choose|j: int| 0 <= j < n + 1 && #[trigger] start.lru@[j]@ == k;
                        assert(j < n);
                    }
                }
                assert forall|k: Seq<char>| #[trigger] self.item_of(k) == (if in_prefix(start.lru@, n + 1, k) {
                    None
                } else {
                    start.item_of(k)
                }) by {
                    assert(s2.item_of(k) == if k == key@ { None } else { s1.item_of(k) });
                    assert(s1.items == head.items);
                    assert(head.item_of(k) == (if in_prefix(start.lru@, n, k) {
                        None
                    } else {
                        start.item_of(k)
                    }));
                    assert(in_prefix(start.lru@, n + 1, k) == (in_prefix(start.lru@, n, k) || k == key@));
                }
                assert forall|k: Seq<char>| #[trigger] self.listing_of(k) == (if in_prefix(start.lru@, n + 1, k) {
                    None
                } else {
                    start.listing_of(k)
                }) by {
                    assert(self.listing_of(k) == if k == key@ { None } else { s2.listing_of(k) });
                    assert(s1.children == head.children);
                    assert(head.listing_of(k) == (if in_prefix(start.lru@, n, k) {
                        None
                    } else {
                        start.listing_of(k)
                    }));
                    assert(in_prefix(start.lru@, n + 1, k) == (in_prefix(start.lru@, n, k) || k == key@));
                }
                assert(start.lru@[n + 1 - 1] == key);
                assert(self.slot_count() + start.slots_of(key@) > MAX_ENTRIES);
                n = n + 1;
            }
        }
        proof {
            assert(start.lru@.skip(n) == self.lru@);
            if self.lru@.len() == 1 {
                self.lemma_single_key_slots();
            }
        }
    }

    /// Reads the metadata of `path` as of clock reading `now`, marking the
    /// path as recently used when found fresh.
    pub fn get_item_at(&mut self, path: &str, now: u64) -> (r: Option<CachedItem>)
        requires
            old(self).wf(),
        ensures
            final(self).wf(),
            r == old(self).read_item(path@, now),
            forall|k: Seq<char>| #[trigger] final(self).item_of(k) == old(self).item_of(k),
            forall|k: Seq<char>| #[trigger] final(self).listing_of(k) == old(self).listing_of(k),
    {
        let key = path.to_owned();
        match find_item_slot(&self.items, &key) {
            Some(i) => {
                proof {
                    lemma_item_entry_at(self.items@, i as int);
                }
                if now > self.items[i].at && now - self.items[i].at > CACHE_TTL_MS {
                    return None;
                }
                let item = copy_item(&self.items[i].item);
                self.touch(&key);
                Some(item)
            },
            None => None,
        }
    }

    /// Reads the listing of `dir` as of clock reading `now`, marking it as
    /// recently used when found fresh.
    pub fn get_children_at(&mut self, dir: &str, now: u64) -> (r: Option<Vec<CachedItem>>)
        requires
            old(self).wf(),
        ensures
            final(self).wf(),
            match r {
                Some(v) => old(self).read_listing(dir@, now) == Some(v@),
                None => old(self).read_listing(dir@, now) is None,
            },
            forall|k: Seq<char>| #[trigger] final(self).item_of(k) == old(self).item_of(k),
            forall|k: Seq<char>| #[trigger] final(self).listing_of(k) == old(self).listing_of(k),
    {
        let key = dir.to_owned();
        match find_listing_slot(&self.children, &key) {
            Some(i) => {
                proof {
                    lemma_listing_entry_at(self.children@, i as int);
                }
                if now > self.children[i].at && now - self.children[i].at > CACHE_TTL_MS {
                    return None;
                }
                let items = copy_items(&self.children[i].items);
                self.touch(&key);
                Some(items)
            },
            None => None,
        }
    }

    /// Reads the metadata of `path`, if stored and fresh.
    pub fn get_item(&mut self, path: &str) -> (r: Option<CachedItem>)
        requires
            old(self).wf(),
        ensures
            final(self).wf(),
            r is Some ==> old(self).item_of(path@) is Some && r->0 == (old(self).item_of(path@)->0).0,
            old(self).item_of(path@) is None ==> r is None,
    {
        let now = self.now();
        self.get_item_at(path, now)
    }

    /// Reads the listing of `dir`, if stored and fresh.
    pub fn get_children(&mut self, dir: &str) -> (r: Option<Vec<CachedItem>>)
        requires
            old(self).wf(),
        ensures
            final(self).wf(),
            r is Some ==> old(self).listing_of(dir@) is Some && r->0@ == (old(self).listing_of(dir@)->0).0,
            old(self).listing_of(dir@) is None ==> r is None,
    {
        let now = self.now();
        self.get_children_at(dir, now)
    }

    /// Stores the metadata of `path` at clock reading `now`, then evicts
    /// least recently used keys while over the cap; `path` itself stays,
    /// its listing untouched. The keys evicted are exactly the other keys
    /// among the least recently used ones (`lru_evicted`), and the cache
    /// ends within `MAX_ENTRIES` slots.
    pub fn put_item_at(&mut self, path: &str, item: CachedItem, now: u64)
        requires
            old(self).wf(),
        ensures
            final(self).wf(),
            final(self).slot_count() <= MAX_ENTRIES,
            exists|m: int| #[trigger] lru_evicted(*old(self), *final(self), path@, m),
            final(self).item_of(path@) == Some((item, now)),
            final(self).listing_of(path@) == old(self).listing_of(path@),
            forall|k: Seq<char>|
                k != path@ ==> #[trigger] final(self).item_of(k) == old(self).item_of(k)
                    || final(self).item_of(k) is None,
            forall|k: Seq<char>|
                #[trigger] final(self).listing_of(k) == old(self).listing_of(k)
                    || final(self).listing_of(k) is None,
    {
        let key = path.to_owned();
        let ghost s0 = *self;
        self.touch(&key);
        let ghost st = *self;
        self.remove_item_key(&key);
        assert(self.item_of(key@) is None);
        let ghost s1 = *self;
        let ghost before = self.items@;
        self.items.push(ItemSlot { key: copy_string(&key), item, at: now });
        proof {
            let s = self.items@;
            assert forall|i: int, j: int|
                0 <= i < s.len() && 0 <= j < s.len() && i != j implies #[trigger] s[i].key@
                != #[trigger] s[j].key@ by {
                if i == s.len() - 1 {
                    assert(item_entry(before, key@) is None);
                    assert(before[j].key@ != key@);
                } else if j == s.len() - 1 {
                    assert(item_entry(before, key@) is None);
                    assert(before[i].key@ != key@);
                }
            }
            lemma_item_entry_at(s, s.len() - 1);
            assert forall|k: Seq<char>| k != key@ implies #[trigger] item_entry(s, k)
                == item_entry(before, k) by {
                if exists|j: int| 0 <= j < before.len() && #[trigger] before[j].key@ == k {
                    let j = choose|j: int| 0 <= j < before.len() && #[trigger] before[j].key@ == k;
                    lemma_item_entry_at(before, j);
                    assert(s[j] == before[j]);
                    lemma_item_entry_at(s, j);
                } else {
                    if exists|j: int| 0 <= j < s.len() && #[trigger] s[j].key@ == k {
                        let j = choose|j: int| 0 <= j < s.len() && #[trigger] s[j].key@ == k;
                        assert(j < before.len());
                        assert(before[j].key@ == k);
                    }
                }
            }
        }
        proof {
            assert(recorded(self.lru@, key@)) by {
                assert(self.lru@[self.lru@.len() - 1]@ == key@);
            }
            assert forall|k: Seq<char>| #[trigger] self.item_of(k) is Some implies recorded(self.lru@, k) by {
                if k != key@ {
                    assert(s1.item_of(k) is Some);
                }
            }
            assert forall|k: Seq<char>| #[trigger] self.listing_of(k) is Some implies recorded(self.lru@, k) by {
                if k != key@ {
                    assert(s1.listing_of(k) is Some);
                }
            }
        }
        let ghost s2 = *self;
        self.evict_while_over_cap();
        proof {
            let n = choose|n: int|
                #![trigger s2.lru@.skip(n)]
                0 <= n < s2.lru@.len() && self.lru@ == s2.lru@.skip(n) && evicted_prefix(s2, *self, n);
            assert(s2.lru@ == st.lru@);
            let m = lemma_touched_prefix(s0.lru@, s2.lru@, key@, n);
            assert forall|k: Seq<char>| k != path@ implies #[trigger] self.item_of(k) == (if in_prefix(s0.recency(), m, k) {
                None
            } else {
                s0.item_of(k)
            }) by {
                assert(in_prefix(s2.lru@, n, k) == in_prefix(s0.lru@, m, k));
                assert(st.items == s0.items);
                assert(s1.item_of(k) == st.item_of(k));
                assert(s2.item_of(k) == s1.item_of(k));
                assert(s2.item_of(k) == s0.item_of(k));
            }
            assert forall|k: Seq<char>| k != path@ implies #[trigger] self.listing_of(k) == (if in_prefix(s0.recency(), m, k) {
                None
            } else {
                s0.listing_of(k)
            }) by {
                assert(in_prefix(s2.lru@, n, k) == in_prefix(s0.lru@, m, k));
                assert(st.children == s0.children);
                assert(s1.listing_of(k) == st.listing_of(k));
                assert(s2.listing_of(k) == s1.listing_of(k));
                assert(s2.listing_of(k) == s0.listing_of(k));
            }
            assert(lru_evicted(s0, *self, path@, m));
            assert forall|k: Seq<char>| k != path@ implies #[trigger] self.item_of(k) == s0.item_of(k)
                || self.item_of(k) is None by {
                assert(self.item_of(k) == s2.item_of(k) || self.item_of(k) is None);
                assert(s1.item_of(k) == s0.item_of(k));
            }
            assert forall|k: Seq<char>| #[trigger] self.listing_of(k) == s0.listing_of(k)
                || self.listing_of(k) is None by {
                assert(self.listing_of(k) == s2.listing_of(k) || self.listing_of(k) is None);
            }
        }
    }

    /// Stores the listing of `dir` at clock reading `now`, then evicts
    /// least recently used keys while over the cap; `dir` itself stays,
    /// its own metadata included. The keys evicted are exactly the other
    /// keys among the least recently used ones (`lru_evicted`), and the
    /// cache ends within `MAX_ENTRIES` slots.
    pub fn put_children_at(&mut self, dir: &str, items: Vec<CachedItem>, now: u64)
        requires
            old(self).wf(),
        ensures
            final(self).wf(),
            final(self).slot_count() <= MAX_ENTRIES,
            exists|m: int| #[trigger] lru_evicted(*old(self), *final(self), dir@, m),
            final(self).listing_of(dir@) == Some((items@, now)),
            final(self).item_of(dir@) == old(self).item_of(dir@),
            forall|k: Seq<char>|
                k != dir@ ==> #[trigger] final(self).listing_of(k) == old(self).listing_of(k)
                    || final(self).listing_of(k) is None,
            forall|k: Seq<char>|
                #[trigger] final(self).item_of(k) == old(self).item_of(k) || final(self).item_of(
                    k,
                ) is None,
    {
        let key = dir.to_owned();
        let ghost s0 = *self;
        self.touch(&key);
        let ghost st = *self;
        self.remove_listing_key(&key);
        assert(self.listing_of(key@) is None);
        let ghost s1 = *self;
        let ghost before = self.children@;
        let ghost listed = items@;
        self.children.push(ListingSlot { key: copy_string(&key), items, at: now });
        proof {
            let s = self.children@;
            assert forall|i: int, j: int|
                0 <= i < s.len() && 0 <= j < s.len() && i != j implies #[trigger] s[i].key@
                != #[trigger] s[j].key@ by {
                if i == s.len() - 1 {
                    assert(listing_entry(before, key@) is None);
                    assert(before[j].key@ != key@);
                } else if j == s.len() - 1 {
                    assert(listing_entry(before, key@) is None);
                    assert(before[i].key@ != key@);
                }
            }
            lemma_listing_entry_at(s, s.len() - 1);
            assert(s[s.len() - 1].items@ == listed);
            assert forall|k: Seq<char>| k != key@ implies #[trigger] listing_entry(s, k)
                == listing_entry(before, k) by {
                if exists|j: int| 0 <= j < before.len() && #[trigger] before[j].key@ == k {
                    let j = choose|j: int| 0 <= j < before.len() && #[trigger] before[j].key@ == k;
                    lemma_listing_entry_at(before, j);
                    assert(s[j] == before[j]);
                    lemma_listing_entry_at(s, j);
                } else {
                    if exists|j: int| 0 <= j < s.len() && #[trigger] s[j].key@ == k {
                        let j = choose|j: int| 0 <= j < s.len() && #[trigger] s[j].key@ == k;
                        assert(j < before.len());
                        assert(before[j].key@ == k);
                    }
                }
            }
        }
        proof {
            assert(recorded(self.lru@, key@)) by {
                assert(self.lru@[self.lru@.len() - 1]@ == key@);
            }
            assert forall|k: Seq<char>| #[trigger] self.item_of(k) is Some implies recorded(self.lru@, k) by {
                if k != key@ {
                    assert(s1.item_of(k) is Some);
                }
            }
            assert forall|k: Seq<char>| #[trigger] self.listing_of(k) is Some implies recorded(self.lru@, k) by {
                if k != key@ {
                    assert(s1.listing_of(k) is Some);
                }
            }
        }
        let ghost s2 = *self;
        self.evict_while_over_cap();
        proof {
            let n = choose|n: int|
                #![trigger s2.lru@.skip(n)]
                0 <= n < s2.lru@.len() && self.lru@ == s2.lru@.skip(n) && evicted_prefix(s2, *self, n);
            assert(s2.lru@ == st.lru@);
            let m = lemma_touched_prefix(s0.lru@, s2.lru@, key@, n);
            assert forall|k: Seq<char>| k != dir@ implies #[trigger] self.item_of(k) == (if in_prefix(s0.recency(), m, k) {
                None
            } else {
                s0.item_of(k)
            }) by {
                assert(in_prefix(s2.lru@, n, k) == in_prefix(s0.lru@, m, k));
                assert(st.items == s0.items);
                assert(s1.item_of(k) == st.item_of(k));
                assert(s2.item_of(k) == s1.item_of(k));
                assert(s2.item_of(k) == s0.item_of(k));
            }
            assert forall|k: Seq<char>| k != dir@ implies #[trigger] self.listing_of(k) == (if in_prefix(s0.recency(), m, k) {
                None
            } else {
                s0.listing_of(k)
            }) by {
                assert(in_prefix(s2.lru@, n, k) == in_prefix(s0.lru@, m, k));
                assert(st.children == s0.children);
                assert(s1.listing_of(k) == st.listing_of(k));
                assert(s2.listing_of(k) == s1.listing_of(k));
                assert(s2.listing_of(k) == s0.listing_of(k));
            }
            assert(lru_evicted(s0, *self, dir@, m));
            assert forall|k: Seq<char>| k != dir@ implies #[trigger] self.listing_of(k) == s0.listing_of(k)
                || self.listing_of(k) is None by {
                assert(self.listing_of(k) == s2.listing_of(k) || self.listing_of(k) is None);
                assert(s1.listing_of(k) == s0.listing_of(k));
            }
            assert forall|k: Seq<char>| #[trigger] self.item_of(k) == s0.item_of(k)
                || self.item_of(k) is None by {
                assert(self.item_of(k) == s2.item_of(k) || self.item_of(k) is None);
            }
        }
    }

    /// Stores the metadata of `path` (see `put_item_at`).
    pub fn put_item(&mut self, path: &str, item: CachedItem)
        requires
            old(self).wf(),
        ensures
            final(self).wf(),
            final(self).slot_count() <= MAX_ENTRIES,
            exists|m: int| #[trigger] lru_evicted(*old(self), *final(self), path@, m),
            final(self).item_of(path@) is Some && (final(self).item_of(path@)->0).0 == item,
            final(self).listing_of(path@) == old(self).listing_of(path@),
            forall|k: Seq<char>|
                k != path@ ==> #[trigger] final(self).item_of(k) == old(self).item_of(k)
                    || final(self).item_of(k) is None,
    {
        let now = self.now();
        self.put_item_at(path, item, now);
    }

    /// Stores the listing of `dir` (see `put_children_at`).
    pub fn put_children(&mut self, dir: &str, items: Vec<CachedItem>)
        requires
            old(self).wf(),
        ensures
            final(self).wf(),
            final(self).slot_count() <= MAX_ENTRIES,
            exists|m: int| #[trigger] lru_evicted(*old(self), *final(self), dir@, m),
            final(self).listing_of(dir@) is Some && (final(self).listing_of(dir@)->0).0 == items@,
            final(self).item_of(dir@) == old(self).item_of(dir@),
            forall|k: Seq<char>|
                k != dir@ ==> #[trigger] final(self).listing_of(k) == old(self).listing_of(k)
                    || final(self).listing_of(k) is None,
    {
        let now = self.now();
        self.put_children_at(dir, items, now);
    }

    /// Drops every slot for `dir`: its listing and its own metadata.
    pub fn invalidate_dir(&mut self, dir: &str)
        requires
            old(self).wf(),
        ensures
            final(self).wf(),
            forall|k: Seq<char>|
                #[trigger] final(self).item_of(k) == if k == dir@ {
                    None
                } else {
                    old(self).item_of(k)
                },
            forall|k: Seq<char>|
                #[trigger] final(self).listing_of(k) == if k == dir@ {
                    None
                } else {
                    old(self).listing_of(k)
                },
    {
        let key = dir.to_owned();
        let ghost s0 = *self;
        self.remove_item_key(&key);
        let ghost s1 = *self;
        self.remove_listing_key(&key);
        let ghost s2 = *self;
        self.forget_key(&key);
        proof {
            assert forall|k: Seq<char>| #[trigger] self.item_of(k) == if k == dir@ {
                None
            } else {
                s0.item_of(k)
            } by {
                assert(s1.item_of(k) == if k == key@ { None } else { s0.item_of(k) });
                assert(s2.items == s1.items);
            }
            assert forall|k: Seq<char>| #[trigger] self.listing_of(k) == if k == dir@ {
                None
            } else {
                s0.listing_of(k)
            } by {
                assert(s2.listing_of(k) == if k == key@ { None } else { s1.listing_of(k) });
                assert(s1.children == s0.children);
            }
        }
    }

    /// After a write under `path`: drops the entry and listing of `path`
    /// itself and the listing of its parent. The parent's own metadata
    /// stays, since Graph does not change a folder's metadata when its
    /// children change.
    pub fn invalidate_parent(&mut self, path: &str)
        requires
            old(self).wf(),
        ensures
            final(self).wf(),
            forall|k: Seq<char>|
                #[trigger] final(self).item_of(k) == if k == path@ {
                    None
                } else {
                    old(self).item_of(k)
                },
            forall|k: Seq<char>|
                #[trigger] final(self).listing_of(k) == if k == path@ || k == parent_of(path@) {
                    None
                } else {
                    old(self).listing_of(k)
                },
    {
        let key = path.to_owned();
        let ghost s0 = *self;
        self.remove_item_key(&key);
        let ghost s1 = *self;
        self.remove_listing_key(&key);
        let ghost s2 = *self;
        self.forget_key(&key);
        let ghost s3 = *self;
        proof {
            assert(s1.item_of(key@) is None);
            assert(s2.items == s1.items);
            assert(s2.listing_of(key@) is None);
            assert forall|k: Seq<char>| #[trigger] self.item_of(k) is Some implies recorded(self.lru@, k) by {
                assert(s2.item_of(k) is Some);
                assert(k != key@);
                assert(recorded(s2.lru@, k));
            }
            assert forall|k: Seq<char>| #[trigger] self.listing_of(k) is Some implies recorded(self.lru@, k) by {
                assert(s2.listing_of(k) is Some);
                assert(k != key@);
                assert(recorded(s2.lru@, k));
            }
        }
        let v = chars_of(path);
        let parent_chars = match rfind_char(v.as_slice(), '/') {
            Some(i) => slice_chars(v.as_slice(), 0, i),
            None => Vec::new(),
        };
        proof {
            assert(parent_chars@ =~= parent_of(path@));
        }
        let parent = string_of(parent_chars.as_slice());
        self.remove_listing_key(&parent);
        proof {
            assert forall|k: Seq<char>| #[trigger] self.item_of(k) == if k == path@ {
                None
            } else {
                s0.item_of(k)
            } by {
                assert(s1.item_of(k) == if k == key@ { None } else { s0.item_of(k) });
                assert(s3.items == s1.items);
            }
            assert forall|k: Seq<char>| #[trigger] self.listing_of(k) == if k == path@ || k
                == parent_of(path@) {
                None
            } else {
                s0.listing_of(k)
            } by {
                assert(self.listing_of(k) == if k == parent@ { None } else { s3.listing_of(k) });
                assert(s2.listing_of(k) == if k == key@ { None } else { s1.listing_of(k) });
                assert(s3.children == s2.children);
                assert(s1.children == s0.children);
            }
        }
    }
}

/// Reading back what was just stored: metadata put at clock reading `at`
/// reads back unchanged at any reading within the time to live.
pub proof fn lemma_fresh_put_reads_back(cache: PathCache, path: Seq<char>, item: CachedItem, at: u64, now: u64)
    requires
        cache.item_of(path) == Some((item, at)),
        now <= at + 30000,
    ensures
        cache.read_item(path, now) == Some(item),
{
}

/// After a write is invalidated, neither the written path nor its parent's
/// listing can be read stale, at any clock reading; the parent's own
/// metadata is kept.
pub proof fn lemma_invalidated_paths_read_nothing(
    before: PathCache,
    after: PathCache,
    path: Seq<char>,
    now: u64,
)
    requires
        forall|k: Seq<char>|
            #[trigger] after.item_of(k) == if k == path {
                None
            } else {
                before.item_of(k)
            },
        forall|k: Seq<char>|
            #[trigger] after.listing_of(k) == if k == path || k == parent_of(path) {
                None
            } else {
                before.listing_of(k)
            },
    ensures
        after.read_item(path, now) is None,
        after.read_listing(path, now) is None,
        after.read_listing(parent_of(path), now) is None,
        parent_of(path) != path ==> after.read_item(parent_of(path), now) == before.read_item(
            parent_of(path),
            now,
        ),
{
    assert(after.item_of(path) is None);
    assert(after.listing_of(path) is None);
    assert(after.listing_of(parent_of(path)) is None);
    assert(parent_of(path) != path ==> after.item_of(parent_of(path)) == before.item_of(
        parent_of(path),
    ));
}

} // verus!
