//! Typed indices and keyed storage: the `Access` and `Invalid` handle
//! traits, an append-only store, and a chained-bucket hash map keyed by
//! string identifiers.

use vstd::prelude::*;

verus! {

/// A typed 32-bit index into a store or pool.
///
/// `idx` is the handle's position; `new` and `index` convert to and from
/// machine indices.  Handles are plain wrappers: two handles are equal
/// exactly when their positions are.
pub trait Access: Sized + Clone + Copy {
    spec fn idx(&self) -> int;

    /// Every handle's position fits in 32 bits.
    proof fn lemma_idx_bounds(a: Self)
        ensures
            0 <= a.idx() <= 0xffff_ffff,
    ;

    /// Handles with one position are one handle.
    proof fn lemma_idx_injective(a: Self, b: Self)
        requires
            a.idx() == b.idx(),
        ensures
            a == b,
    ;

    fn new(index: usize) -> (r: Self)
        requires
            index <= 0xffff_ffff,
        ensures
            r.idx() == index,
    ;

    fn index(&self) -> (r: usize)
        ensures
            r == self.idx(),
    ;
}

/// Types with a reserved "not there" value, used by pools and maps to mark
/// vacant storage.
pub trait Invalid: Sized {
    spec fn invalid_spec() -> Self;

    fn invalid() -> (r: Self)
        ensures
            r == Self::invalid_spec(),
    ;

    fn is_invalid(&self) -> (r: bool)
        ensures
            r == (*self == Self::invalid_spec()),
    ;
}

/// Plain 32-bit values used as stored data reserve the all-ones value as
/// their vacancy marker.
impl Invalid for u32 {
    open spec fn invalid_spec() -> Self {
        0xffff_ffffu32
    }

    fn invalid() -> (r: Self) {
        0xffff_ffff
    }

    fn is_invalid(&self) -> (r: bool) {
        *self == 0xffff_ffff
    }
}

/// One step of the sdbm string hash, with the same wrapping arithmetic
/// the hash is defined by.
pub open spec fn sdbm_step(acc: u64, c: u8) -> u64 {
    (c as u64).wrapping_add(acc << 6).wrapping_add(acc << 16).wrapping_sub(acc)
}

/// The sdbm hash of a byte sequence.
pub open spec fn sdbm_hash(bytes: Seq<u8>) -> u64
    decreases bytes.len(),
{
    if bytes.len() == 0 {
        0
    } else {
        sdbm_step(sdbm_hash(bytes.drop_last()), bytes.last())
    }
}

/// A string key, stored as its sdbm hash.  The empty string hashes to
/// zero, which doubles as the reserved invalid key.
#[derive(Clone, Copy, Debug, PartialEq, Eq, Structural)]
pub struct Identifier(pub u64);

impl Identifier {
    /// Hashes a name into a key.
    pub fn new(name: &str) -> (r: Self)
        ensures
            r.0 == sdbm_hash(crate::codec::str_bytes(name@)),
    {
        let bytes = name.as_bytes();
        let n = bytes.len();
        let mut acc: u64 = 0;
        let mut i: usize = 0;
        while i < n
            invariant
                i <= n,
                n == bytes@.len(),
                acc == sdbm_hash(bytes@.take(i as int)),
            decreases n - i,
        {
            let c = bytes[i];
            proof {
                assert(bytes@.take(i + 1).drop_last() =~= bytes@.take(i as int));
                assert(bytes@.take(i + 1).last() == bytes@[i as int]);
            }
            acc = (c as u64).wrapping_add(acc << 6).wrapping_add(acc << 16).wrapping_sub(acc);
            i = i + 1;
        }
        proof {
            assert(bytes@.take(n as int) =~= bytes@);
        }
        Identifier(acc)
    }
}

impl Invalid for Identifier {
    /// The empty string's hash: good enough as "no key" here.
    open spec fn invalid_spec() -> Self {
        Identifier(0)
    }

    fn invalid() -> (r: Self) {
        Identifier(0)
    }

    fn is_invalid(&self) -> (r: bool) {
        self.0 == 0
    }
}

/// Append-only storage handing out typed indices; entries are never
/// removed, so every handle stays valid for the store's lifetime.
pub struct Store<A, T> {
    data: Vec<T>,
    _handle: core::marker::PhantomData<A>,
}

impl<A: Access, T> Store<A, T> {
    /// The stored values in insertion order.
    pub closed spec fn entries(&self) -> Seq<T> {
        self.data@
    }

    pub fn new() -> (r: Self)
        ensures
            r.entries() == Seq::<T>::empty(),
    {
        Store { data: Vec::new(), _handle: core::marker::PhantomData }
    }

    pub fn with_capacity(capacity: usize) -> (r: Self)
        ensures
            r.entries() == Seq::<T>::empty(),
    {
        Store { data: Vec::with_capacity(capacity), _handle: core::marker::PhantomData }
    }

    /// Appends a value and returns its permanent handle.
    pub fn push(&mut self, value: T) -> (r: A)
        requires
            old(self).entries().len() < 0xffff_ffff,
        ensures
            final(self).entries() == old(self).entries().push(value),
            r.idx() == old(self).entries().len(),
    {
        self.data.push(value);
        A::new(self.data.len() - 1)
    }

    pub fn len(&self) -> (r: usize)
        ensures
            r == self.entries().len(),
    {
        self.data.len()
    }

    /// Borrows the value a handle names.
    pub fn get(&self, handle: A) -> (r: &T)
        requires
            0 <= handle.idx() < self.entries().len(),
        ensures
            *r == self.entries()[handle.idx()],
    {
        proof {
            A::lemma_idx_bounds(handle);
        }
        &self.data[handle.index()]
    }

    /// Mutably borrows the value a handle names.
    pub fn get_mut(&mut self, handle: A) -> (r: &mut T)
        requires
            0 <= handle.idx() < old(self).entries().len(),
        ensures
            *r == old(self).entries()[handle.idx()],
            final(self).entries() == old(self).entries().update(handle.idx(), *final(r)),
    {
        proof {
            A::lemma_idx_bounds(handle);
        }
        let idx = handle.index();
        &mut self.data[idx]
    }

    /// All values, in insertion order.
    pub fn values(&self) -> (r: &Vec<T>)
        ensures
            r@ == self.entries(),
    {
        &self.data
    }

    /// Every live handle, in index order.
    pub fn keys(&self) -> (r: Vec<A>)
        requires
            self.entries().len() <= 0xffff_ffff,
        ensures
            r@.len() == self.entries().len(),
            forall|j: int| 0 <= j < r@.len() ==> (#[trigger] r@[j]).idx() == j,
    {
        let mut r: Vec<A> = Vec::new();
        let n = self.data.len();
        let mut i: usize = 0;
        while i < n
            invariant
                i <= n,
                n <= 0xffff_ffff,
                r@.len() == i,
                forall|j: int| 0 <= j < r@.len() ==> (#[trigger] r@[j]).idx() == j,
            decreases n - i,
        {
            r.push(A::new(i));
            i = i + 1;
        }
        r
    }

    /// The handle iteration: walk these and read through `get`.
    pub fn iter(&self) -> (r: Vec<A>)
        requires
            self.entries().len() <= 0xffff_ffff,
        ensures
            r@.len() == self.entries().len(),
            forall|j: int| 0 <= j < r@.len() ==> (#[trigger] r@[j]).idx() == j,
    {
        self.keys()
    }

    /// The handle iteration for mutation: walk these and write through
    /// `get_mut`.
    pub fn iter_mut(&mut self) -> (r: Vec<A>)
        requires
            old(self).entries().len() <= 0xffff_ffff,
        ensures
            *final(self) == *old(self),
            r@.len() == final(self).entries().len(),
            forall|j: int| 0 <= j < r@.len() ==> (#[trigger] r@[j]).idx() == j,
    {
        self.keys()
    }
}

/// The link or bucket value that ends a chain.
pub const NIL_LINK: u32 = 0xffff_ffff;

/// The chain starting at `cur` reaches the end marker within `fuel`
/// steps, every link staying inside the slot array: the shape that makes
/// walking a bucket safe and terminating.
pub open spec fn chain_ok<T>(data: Seq<(u64, T, u32)>, cur: u32, fuel: nat) -> bool
    decreases fuel,
{
    if cur == NIL_LINK {
        true
    } else if fuel == 0 {
        false
    } else {
        cur < data.len() && chain_ok(data, data[cur as int].2, (fuel - 1) as nat)
    }
}

/// The first live entry for `id` along the chain at `cur`.
pub open spec fn chain_get<T: Invalid>(
    data: Seq<(u64, T, u32)>,
    cur: u32,
    id: u64,
    fuel: nat,
) -> Option<T>
    decreases fuel,
{
    if cur == NIL_LINK || fuel == 0 || cur >= data.len() {
        None
    } else {
        let e = data[cur as int];
        if e.0 == id && e.1 != T::invalid_spec() {
            Some(e.1)
        } else {
            chain_get(data, e.2, id, (fuel - 1) as nat)
        }
    }
}

/// Longer fuel never hurts a chain that already reaches the end.
pub proof fn lemma_chain_ok_mono<T>(data: Seq<(u64, T, u32)>, cur: u32, f1: nat, f2: nat)
    requires
        chain_ok(data, cur, f1),
        f1 <= f2,
    ensures
        chain_ok(data, cur, f2),
    decreases f1,
{
    if cur != NIL_LINK {
        lemma_chain_ok_mono(data, data[cur as int].2, (f1 - 1) as nat, (f2 - 1) as nat);
    }
}

/// Chains ignore appended slots: what held in the shorter array holds in
/// the longer one.
pub proof fn lemma_chain_ok_grow<T>(
    data1: Seq<(u64, T, u32)>,
    data2: Seq<(u64, T, u32)>,
    cur: u32,
    fuel: nat,
)
    requires
        chain_ok(data1, cur, fuel),
        data1.len() <= data2.len(),
        forall|i: int| 0 <= i < data1.len() ==> (#[trigger] data2[i]).2 == data1[i].2,
    ensures
        chain_ok(data2, cur, fuel),
    decreases fuel,
{
    if cur != NIL_LINK {
        lemma_chain_ok_grow(data1, data2, data1[cur as int].2, (fuel - 1) as nat);
    }
}

/// Chains survive a value overwrite that leaves every link in place.
pub proof fn lemma_chain_ok_links<T>(
    data1: Seq<(u64, T, u32)>,
    data2: Seq<(u64, T, u32)>,
    cur: u32,
    fuel: nat,
)
    requires
        chain_ok(data1, cur, fuel),
        data1.len() == data2.len(),
        forall|i: int| 0 <= i < data1.len() ==> (#[trigger] data2[i]).2 == data1[i].2,
    ensures
        chain_ok(data2, cur, fuel),
    decreases fuel,
{
    if cur != NIL_LINK {
        lemma_chain_ok_links(data1, data2, data1[cur as int].2, (fuel - 1) as nat);
    }
}

/// Masking cannot exceed the mask.
pub proof fn lemma_mask_bound(x: u64, m: u64)
    ensures
        (x & m) <= m,
{
    assert((x & m) <= m) by (bit_vector);
}

/// `path` lists the successive slots a chain walk passes from `head` to
/// `cur`.
pub open spec fn is_path<T>(data: Seq<(u64, T, u32)>, head: u32, cur: u32, path: Seq<u32>) -> bool
    decreases path.len(),
{
    if path.len() == 0 {
        head == cur
    } else {
        &&& path[0] == head
        &&& head != NIL_LINK
        &&& head < data.len()
        &&& is_path(data, data[head as int].2, cur, path.skip(1))
    }
}

proof fn lemma_path_extend<T>(data: Seq<(u64, T, u32)>, head: u32, cur: u32, path: Seq<u32>)
    requires
        is_path(data, head, cur, path),
        cur != NIL_LINK,
        cur < data.len(),
    ensures
        is_path(data, head, data[cur as int].2, path.push(cur)),
    decreases path.len(),
{
    if path.len() == 0 {
        assert(head == cur);
        assert(path.push(cur)[0] == cur);
        assert(path.push(cur).skip(1) =~= Seq::<u32>::empty());
        assert(is_path(data, data[cur as int].2, data[cur as int].2, Seq::<u32>::empty()));
    } else {
        lemma_path_extend(data, data[head as int].2, cur, path.skip(1));
        assert(path.push(cur)[0] == head);
        assert(path.push(cur).skip(1) =~= path.skip(1).push(cur));
    }
}

/// A walked route depends only on the slot links, not the values.
proof fn lemma_is_path_links<T>(
    data: Seq<(u64, T, u32)>,
    data2: Seq<(u64, T, u32)>,
    head: u32,
    cur: u32,
    path: Seq<u32>,
)
    requires
        is_path(data, head, cur, path),
        data2.len() == data.len(),
        forall|i: int| 0 <= i < data.len() ==> (#[trigger] data2[i]).2 == data[i].2,
    ensures
        is_path(data2, head, cur, path),
    decreases path.len(),
{
    if path.len() > 0 {
        lemma_is_path_links(data, data2, data[head as int].2, cur, path.skip(1));
    }
}

/// A walk whose passed slots carry other live keys reads the same way in
/// any slot array that keeps the links and those slots: the ground for
/// reasoning about an update at the walk's end.
proof fn lemma_walk_transfer<T: Invalid>(
    data: Seq<(u64, T, u32)>,
    data2: Seq<(u64, T, u32)>,
    id: u64,
    head: u32,
    cur: u32,
    path: Seq<u32>,
    flen: nat,
)
    requires
        is_path(data, head, cur, path),
        forall|k: int|
            0 <= k < path.len() ==> (#[trigger] path[k]) < data.len() && data[path[k] as int].1
                != T::invalid_spec() && data[path[k] as int].0 != id,
        data2.len() == data.len(),
        forall|i: int| 0 <= i < data.len() ==> (#[trigger] data2[i]).2 == data[i].2,
        forall|k: int|
            0 <= k < path.len() ==> data2[(#[trigger] path[k]) as int] == data[path[k] as int],
        path.len() <= flen,
    ensures
        chain_get(data2, head, id, flen) == chain_get(
            data2,
            cur,
            id,
            (flen - path.len()) as nat,
        ),
    decreases path.len(),
{
    if path.len() > 0 {
        assert(forall|k: int| 1 <= k < path.len() ==> path.skip(1)[k - 1] == path[k]);
        lemma_walk_transfer(
            data,
            data2,
            id,
            data[head as int].2,
            cur,
            path.skip(1),
            (flen - 1) as nat,
        );
        assert(data2[head as int] == data[head as int]);
    }
}

/// A single-slot update that key `k` cannot tell apart — the slot's link
/// is kept, and its being a live entry for `k` (and then its value) is
/// unchanged — leaves every lookup for `k` unchanged.
proof fn lemma_chain_get_update<T: Invalid>(
    data: Seq<(u64, T, u32)>,
    data2: Seq<(u64, T, u32)>,
    m: int,
    k: u64,
    c: u32,
    f: nat,
)
    requires
        data2.len() == data.len(),
        0 <= m < data.len(),
        forall|i: int| 0 <= i < data.len() && i != m ==> data2[i] == data[i],
        data2[m].2 == data[m].2,
        (data[m].0 == k && data[m].1 != T::invalid_spec()) == (data2[m].0 == k && data2[m].1
            != T::invalid_spec()),
        data[m].0 == k && data[m].1 != T::invalid_spec() ==> data2[m].1 == data[m].1,
    ensures
        chain_get(data2, c, k, f) == chain_get(data, c, k, f),
    decreases f,
{
    if c != NIL_LINK && f > 0 && (c as int) < data.len() {
        lemma_chain_get_update(data, data2, m, k, data[c as int].2, (f - 1) as nat);
    }
}

/// Appended slots change no lookup that already ran inside the old slots.
proof fn lemma_chain_get_grow<T: Invalid>(
    data: Seq<(u64, T, u32)>,
    data2: Seq<(u64, T, u32)>,
    k: u64,
    c: u32,
    f: nat,
)
    requires
        chain_ok(data, c, f),
        data.len() <= data2.len(),
        forall|i: int| 0 <= i < data.len() ==> data2[i] == data[i],
    ensures
        chain_get(data2, c, k, f) == chain_get(data, c, k, f),
    decreases f,
{
    if c != NIL_LINK {
        lemma_chain_get_grow(data, data2, k, data[c as int].2, (f - 1) as nat);
    }
}

/// Fuel beyond what a terminating chain needs changes no lookup.
proof fn lemma_chain_get_fuel<T: Invalid>(
    data: Seq<(u64, T, u32)>,
    k: u64,
    c: u32,
    f: nat,
    f2: nat,
)
    requires
        chain_ok(data, c, f),
        f <= f2,
    ensures
        chain_get(data, c, k, f2) == chain_get(data, c, k, f),
    decreases f,
{
    if c != NIL_LINK && (c as int) < data.len() {
        lemma_chain_get_fuel(data, k, data[c as int].2, (f - 1) as nat, (f2 - 1) as nat);
    }
}

/// A fully walked chain none of whose slots is a live entry for `k`
/// looks `k` up as absent.
proof fn lemma_chain_get_none<T: Invalid>(
    data: Seq<(u64, T, u32)>,
    k: u64,
    head: u32,
    path: Seq<u32>,
    f: nat,
)
    requires
        is_path(data, head, NIL_LINK, path),
        forall|j: int|
            0 <= j < path.len() ==> (#[trigger] path[j]) < data.len() && !(data[path[j] as int].0
                == k && data[path[j] as int].1 != T::invalid_spec()),
        path.len() <= f,
    ensures
        chain_get(data, head, k, f) is None,
    decreases path.len(),
{
    if path.len() > 0 {
        assert(forall|j: int| 1 <= j < path.len() ==> path.skip(1)[j - 1] == path[j]);
        lemma_chain_get_none(data, k, data[head as int].2, path.skip(1), (f - 1) as nat);
    }
}

/// A from-scratch hash map with chained collision buckets, keyed by
/// [`Identifier`] hashes, used for fast key lookup.
///
/// The bucket table holds chain heads; each slot stores a key, a value
/// and the next link.  A removed entry is marked with the value type's
/// reserved invalid value and its slot is reclaimed in place by a later
/// insertion on the same chain; fresh entries are prepended to their
/// bucket's chain.  When the slots outnumber the buckets the table is
/// rebuilt twice as wide.
pub struct KeyMap<T> {
    lookup: Vec<u32>,
    data: Vec<(u64, T, u32)>,
}

impl<T: Invalid> KeyMap<T> {
    /// The bucket a key falls into.
    pub closed spec fn bucket_of(&self, id: u64) -> int {
        (id & (self.lookup@.len() - 1) as u64) as int
    }

    /// The first live value stored under `id`, walking its bucket chain.
    pub closed spec fn m_get(&self, id: u64) -> Option<T> {
        chain_get(self.data@, self.lookup@[self.bucket_of(id)], id, self.data@.len())
    }

    /// Some bucket exists, every slot index fits a link, and every
    /// bucket's chain stays in bounds and terminates.
    pub closed spec fn wf(&self) -> bool {
        &&& self.lookup@.len() >= 1
        &&& self.lookup@.len() <= 0x7fff_ffff
        &&& self.data@.len() <= 0xffff_fffe
        &&& forall|b: int|
            0 <= b < self.lookup@.len() ==> chain_ok(
                self.data@,
                #[trigger] self.lookup@[b],
                self.data@.len(),
            )
    }

    /// The number of slots, reclaimed ones included.
    pub closed spec fn slot_len(&self) -> int {
        self.data@.len() as int
    }

    /// The key stored in a slot.
    pub closed spec fn key_at(&self, i: int) -> u64 {
        self.data@[i].0
    }

    /// The number of buckets; the table grows once the slots outnumber
    /// them.
    pub closed spec fn bucket_len(&self) -> int {
        self.lookup@.len() as int
    }

    /// The keys of the live entries, in slot order.
    pub closed spec fn live_keys(&self) -> Seq<u64> {
        self.data@.filter(|e: (u64, T, u32)| e.1 != T::invalid_spec()).map_values(
            |e: (u64, T, u32)| e.0,
        )
    }

    pub fn new() -> (r: Self)
        ensures
            r.wf(),
            r.slot_len() == 0,
            forall|id: u64| (#[trigger] r.m_get(id)) is None,
    {
        let mut lookup: Vec<u32> = Vec::new();
        lookup.push(NIL_LINK);
        let r = KeyMap { lookup, data: Vec::new() };
        proof {
            assert forall|id: u64| (#[trigger] r.m_get(id)) is None by {
                lemma_mask_bound(id, 0);
            }
        }
        r
    }

    pub fn with_capacity(capacity: usize) -> (r: Self)
        ensures
            r.wf(),
            r.slot_len() == 0,
            r.bucket_len() >= 1,
            capacity <= 0x2000_0000 ==> r.bucket_len() >= capacity,
            forall|id: u64| (#[trigger] r.m_get(id)) is None,
    {
        let mut buckets: usize = 1;
        while buckets < capacity && buckets <= 0x2000_0000
            invariant
                1 <= buckets <= 0x4000_0000,
            decreases 0x4000_0000 - buckets,
        {
            buckets = buckets * 2;
        }
        let mut lookup: Vec<u32> = Vec::new();
        let mut i: usize = 0;
        while i < buckets
            invariant
                i <= buckets,
                buckets <= 0x4000_0000,
                lookup@.len() == i,
                forall|b: int| 0 <= b < lookup@.len() ==> #[trigger] lookup@[b] == NIL_LINK,
            decreases buckets - i,
        {
            lookup.push(NIL_LINK);
            i = i + 1;
        }
        let r = KeyMap { lookup, data: Vec::with_capacity(capacity) };
        proof {
            assert forall|id: u64| (#[trigger] r.m_get(id)) is None by {
                lemma_mask_bound(id, (r.lookup@.len() - 1) as u64);
            }
        }
        r
    }

    /// Drops every entry, keeping the bucket table's width.
    pub fn clear(&mut self)
        requires
            old(self).wf(),
        ensures
            final(self).wf(),
            final(self).slot_len() == 0,
            final(self).bucket_len() == old(self).bucket_len(),
            forall|id: u64| (#[trigger] final(self).m_get(id)) is None,
    {
        let n = self.lookup.len();
        let mut i: usize = 0;
        while i < n
            invariant
                i <= n,
                n == self.lookup@.len(),
                forall|b: int| 0 <= b < i ==> #[trigger] self.lookup@[b] == NIL_LINK,
        decreases n - i,
        {
            self.lookup[i] = NIL_LINK;
            i = i + 1;
        }
        self.data.clear();
        proof {
            lemma_mask_bound(0, (self.lookup@.len() - 1) as u64);
            assert forall|id: u64| (#[trigger] final(self).m_get(id)) is None by {
                lemma_mask_bound(id, (self.lookup@.len() - 1) as u64);
            }
        }
    }

    fn bucket_index(&self, id: u64) -> (r: usize)
        requires
            self.wf(),
        ensures
            r == self.bucket_of(id),
            r < self.lookup@.len(),
    {
        proof {
            lemma_mask_bound(id, (self.lookup@.len() - 1) as u64);
        }
        ((id & (self.lookup.len() - 1) as u64)) as usize
    }

    /// Looks a key's value up along its bucket chain.
    pub fn get_by_id(&self, id: Identifier) -> (r: Option<&T>)
        requires
            self.wf(),
        ensures
            match r {
                Some(v) => self.m_get(id.0) == Some(*v),
                None => self.m_get(id.0) is None,
            },
    {
        let b = self.bucket_index(id.0);
        let mut cur: u32 = self.lookup[b];
        let ghost mut fuel: nat = self.data@.len();
        proof {
            assert(chain_ok(self.data@, cur, fuel));
        }
        while cur != NIL_LINK
            invariant
                self.wf(),
                chain_ok(self.data@, cur, fuel),
                fuel <= self.data@.len(),
                self.m_get(id.0) == chain_get(self.data@, cur, id.0, fuel),
            decreases fuel,
        {
            let idx = cur as usize;
            let entry = &self.data[idx];
            if entry.0 == id.0 && !entry.1.is_invalid() {
                proof {
                    assert(chain_get(self.data@, cur, id.0, fuel) == Some(self.data@[idx as int].1));
                }
                return Some(&self.data[idx].1);
            }
            proof {
                fuel = (fuel - 1) as nat;
            }
            cur = self.data[idx].2;
        }
        None
    }

    /// Looks a name's value up.
    pub fn get(&self, name: &str) -> (r: Option<&T>)
        requires
            self.wf(),
        ensures
            match r {
                Some(v) => self.m_get(sdbm_hash(crate::codec::str_bytes(name@))) == Some(*v),
                None => self.m_get(sdbm_hash(crate::codec::str_bytes(name@))) is None,
            },
    {
        self.get_by_id(Identifier::new(name))
    }

    /// Removes the key: every live entry for it on its bucket chain is
    /// marked invalid (the slots stay chained and are reclaimed by later
    /// inserts), the first one's value is handed back, and the key then
    /// looks up as absent; every other key keeps its value.
    pub fn remove_by_id(&mut self, id: Identifier) -> (r: Option<T>)
        requires
            old(self).wf(),
        ensures
            final(self).wf(),
            final(self).slot_len() == old(self).slot_len(),
            r == old(self).m_get(id.0),
            final(self).m_get(id.0) is None,
            forall|k: u64| k != id.0 ==> #[trigger] final(self).m_get(k) == old(self).m_get(k),
            r is None ==> *final(self) == *old(self),
    {
        let b = self.bucket_index(id.0);
        let head: u32 = self.lookup[b];
        let mut cur: u32 = head;
        let mut taken: Option<T> = None;
        let ghost mut fuel: nat = self.data@.len();
        let ghost mut path: Seq<u32> = Seq::empty();
        while cur != NIL_LINK
            invariant
                self.lookup@ == old(self).lookup@,
                self.data@.len() == old(self).data@.len(),
                forall|i: int|
                    0 <= i < self.data@.len() ==> (#[trigger] self.data@[i]).2 == old(self).data@[i].2,
                old(self).wf(),
                b == self.bucket_of(id.0),
                b < self.lookup@.len(),
                head == self.lookup@[b as int],
                chain_ok(self.data@, cur, fuel),
                fuel == self.data@.len() - path.len(),
                is_path(self.data@, head, cur, path),
                forall|j: int|
                    0 <= j < path.len() ==> (#[trigger] path[j]) < self.data@.len() && !(
                    self.data@[path[j] as int].0 == id.0 && self.data@[path[j] as int].1
                        != T::invalid_spec()),
                taken is None ==> *self == *old(self) && old(self).m_get(id.0) == chain_get(
                    self.data@,
                    cur,
                    id.0,
                    fuel,
                ),
                taken is Some ==> taken == old(self).m_get(id.0),
                forall|k: u64, bb: int|
                    #![trigger chain_get(self.data@, self.lookup@[bb], k, self.data@.len())]
                    k != id.0 && 0 <= bb < self.lookup@.len() ==> chain_get(
                        self.data@,
                        self.lookup@[bb],
                        k,
                        self.data@.len(),
                    ) == chain_get(old(self).data@, old(self).lookup@[bb], k, old(self).data@.len()),
            decreases fuel,
        {
            let idx = cur as usize;
            if self.data[idx].0 == id.0 && !self.data[idx].1.is_invalid() {
                let ghost before = self.data@;
                let slot = &mut self.data[idx];
                let mut grabbed = T::invalid();
                core::mem::swap(&mut grabbed, &mut slot.1);
                proof {
                    assert(chain_get(before, cur, id.0, fuel) == Some(grabbed));
                    assert(forall|i: int|
                        0 <= i < before.len() ==> (#[trigger] self.data@[i]).2 == before[i].2);
                    lemma_is_path_links(before, self.data@, head, cur, path);
                    lemma_chain_ok_links(before, self.data@, cur, fuel);
                    // no other key can tell the invalidated slot apart
                    assert forall|k: u64, bb: int|
                        #![trigger chain_get(self.data@, self.lookup@[bb], k, self.data@.len())]
                        k != id.0 && 0 <= bb < self.lookup@.len() implies chain_get(
                        self.data@,
                        self.lookup@[bb],
                        k,
                        self.data@.len(),
                    ) == chain_get(before, self.lookup@[bb], k, before.len()) by {
                        lemma_chain_get_update(
                            before,
                            self.data@,
                            cur as int,
                            k,
                            self.lookup@[bb],
                            before.len(),
                        );
                    }
                }
                if taken.is_none() {
                    taken = Some(grabbed);
                }
            }
            proof {
                lemma_path_extend(self.data@, head, cur, path);
                path = path.push(cur);
                fuel = (fuel - 1) as nat;
            }
            cur = self.data[idx].2;
        }
        proof {
            // every bucket's chain keeps its shape, so the map stays
            // well-formed
            assert forall|bb: int|
                0 <= bb < self.lookup@.len() implies chain_ok(
                self.data@,
                #[trigger] self.lookup@[bb],
                self.data@.len(),
            ) by {
                lemma_chain_ok_links(
                    old(self).data@,
                    self.data@,
                    old(self).lookup@[bb],
                    old(self).data@.len(),
                );
            }
            // the whole chain was walked and no live entry for the key
            // remains on it
            lemma_chain_get_none(self.data@, id.0, head, path, self.data@.len());
            assert forall|k: u64| k != id.0 implies #[trigger] final(self).m_get(k) == old(self).m_get(k) by {
                lemma_mask_bound(k, (self.lookup@.len() - 1) as u64);
                assert(chain_get(
                    self.data@,
                    self.lookup@[self.bucket_of(k)],
                    k,
                    self.data@.len(),
                ) == chain_get(
                    old(self).data@,
                    old(self).lookup@[self.bucket_of(k)],
                    k,
                    old(self).data@.len(),
                ));
            }
        }
        taken
    }

    /// Removes a name's entry.
    pub fn remove(&mut self, name: &str) -> (r: Option<T>)
        requires
            old(self).wf(),
        ensures
            final(self).wf(),
            r == old(self).m_get(sdbm_hash(crate::codec::str_bytes(name@))),
            final(self).m_get(sdbm_hash(crate::codec::str_bytes(name@))) is None,
            forall|k: u64|
                k != sdbm_hash(crate::codec::str_bytes(name@)) ==> #[trigger] final(self).m_get(
                    k,
                ) == old(self).m_get(k),
            r is None ==> *final(self) == *old(self),
    {
        self.remove_by_id(Identifier::new(name))
    }

    /// Stores a value under a key: the first reclaimed slot on the chain
    /// is reused, a live entry for the same key is replaced (its old
    /// value is returned), and otherwise a fresh slot is prepended to the
    /// chain.  Afterwards the key looks up exactly the stored value.
    fn insert_no_grow(&mut self, id: Identifier, value: T) -> (r: Option<T>)
        requires
            old(self).wf(),
            old(self).slot_len() < 0xffff_fffe,
            value != T::invalid_spec(),
        ensures
            final(self).wf(),
            final(self).lookup@.len() == old(self).lookup@.len(),
            old(self).slot_len() <= final(self).slot_len() <= old(self).slot_len() + 1,
            final(self).m_get(id.0) == Some(value),
            forall|k: u64| k != id.0 ==> #[trigger] final(self).m_get(k) == old(self).m_get(k),
            r is Some ==> old(self).m_get(id.0) == r,
    {
        let b = self.bucket_index(id.0);
        let head: u32 = self.lookup[b];
        let mut cur: u32 = head;
        let ghost mut fuel: nat = self.data@.len();
        let ghost mut path: Seq<u32> = Seq::empty();
        while cur != NIL_LINK
            invariant
                self.wf(),
                *self == *old(self),
                b == self.bucket_of(id.0),
                b < self.lookup@.len(),
                head == self.lookup@[b as int],
                value != T::invalid_spec(),
                chain_ok(self.data@, cur, fuel),
                fuel == self.data@.len() - path.len(),
                is_path(self.data@, head, cur, path),
                forall|k: int|
                    0 <= k < path.len() ==> (#[trigger] path[k]) < self.data@.len()
                        && self.data@[path[k] as int].1 != T::invalid_spec()
                        && self.data@[path[k] as int].0 != id.0,
                old(self).m_get(id.0) == chain_get(self.data@, cur, id.0, fuel),
            decreases fuel,
        {
            let idx = cur as usize;
            let reclaimed = self.data[idx].1.is_invalid();
            let matched = self.data[idx].0 == id.0;
            if reclaimed || matched {
                // reuse the reclaimed slot, or replace the live entry
                let ghost before = self.data@;
                let slot = &mut self.data[idx];
                slot.0 = id.0;
                let mut replaced = value;
                core::mem::swap(&mut replaced, &mut slot.1);
                proof {
                    if !reclaimed {
                        assert(chain_get(before, cur, id.0, fuel) == Some(replaced));
                    }
                    assert(forall|i: int|
                        0 <= i < before.len() ==> (#[trigger] self.data@[i]).2 == before[i].2);
                    assert forall|bb: int|
                        0 <= bb < self.lookup@.len() implies chain_ok(
                        self.data@,
                        #[trigger] self.lookup@[bb],
                        self.data@.len(),
                    ) by {
                        lemma_chain_ok_links(before, self.data@, self.lookup@[bb], before.len());
                    }
                    // the mutated slot is not one the walk passed, so the
                    // walk reads the same way in the updated array
                    assert(forall|k: int|
                        0 <= k < path.len() ==> (#[trigger] path[k]) != cur);
                    assert(forall|k: int|
                        0 <= k < path.len() ==> self.data@[(#[trigger] path[k]) as int]
                            == before[path[k] as int]);
                    lemma_walk_transfer(
                        before,
                        self.data@,
                        id.0,
                        head,
                        cur,
                        path,
                        self.data@.len(),
                    );
                    assert(fuel > 0) by {
                        assert(chain_ok(before, cur, fuel));
                    }
                    assert(self.data@[cur as int] == (id.0, value, before[cur as int].2));
                    assert(chain_get(self.data@, cur, id.0, fuel) == Some(value));
                    // the slot now carries this key, so every other key
                    // reads every chain unchanged
                    assert forall|k: u64| k != id.0 implies #[trigger] chain_get(
                        self.data@,
                        self.lookup@[self.bucket_of(k)],
                        k,
                        self.data@.len(),
                    ) == chain_get(before, self.lookup@[self.bucket_of(k)], k, before.len()) by {
                        lemma_chain_get_update(
                            before,
                            self.data@,
                            cur as int,
                            k,
                            self.lookup@[self.bucket_of(k)],
                            before.len(),
                        );
                    }
                }
                if reclaimed {
                    return None;
                }
                return Some(replaced);
            }
            proof {
                lemma_path_extend(self.data@, head, cur, path);
                path = path.push(cur);
                fuel = (fuel - 1) as nat;
            }
            cur = self.data[idx].2;
        }
        // no reusable slot: prepend a fresh one to the bucket's chain
        let ghost before = self.data@;
        let fresh: u32 = self.data.len() as u32;
        self.data.push((id.0, value, head));
        self.lookup[b] = fresh;
        proof {
            assert(forall|i: int|
                0 <= i < before.len() ==> (#[trigger] self.data@[i]).2 == before[i].2);
            assert forall|bb: int|
                0 <= bb < self.lookup@.len() implies chain_ok(
                self.data@,
                #[trigger] self.lookup@[bb],
                self.data@.len(),
            ) by {
                if bb == b {
                    lemma_chain_ok_grow(before, self.data@, head, before.len());
                    lemma_chain_ok_mono(self.data@, head, before.len(), (self.data@.len() - 1) as nat);
                } else {
                    lemma_chain_ok_grow(before, self.data@, old(self).lookup@[bb], before.len());
                    lemma_chain_ok_mono(
                        self.data@,
                        old(self).lookup@[bb],
                        before.len(),
                        self.data@.len(),
                    );
                }
            }
            assert(self.data@[fresh as int] == (id.0, value, head));
            assert(chain_get(self.data@, fresh, id.0, self.data@.len()) == Some(value));
            // other keys: an unlinked appended slot is invisible, and on
            // this bucket's chain the fresh head carries the new key only
            assert forall|k: u64| k != id.0 implies #[trigger] chain_get(
                self.data@,
                self.lookup@[self.bucket_of(k)],
                k,
                self.data@.len(),
            ) == chain_get(before, old(self).lookup@[self.bucket_of(k)], k, before.len()) by {
                let bk = self.bucket_of(k);
                lemma_mask_bound(k, (self.lookup@.len() - 1) as u64);
                assert(0 <= bk < self.lookup@.len());
                assert(chain_ok(before, old(self).lookup@[bk], before.len()));
                if bk == b {
                    assert(chain_get(self.data@, fresh, k, self.data@.len()) == chain_get(
                        self.data@,
                        head,
                        k,
                        before.len(),
                    ));
                    lemma_chain_get_grow(before, self.data@, k, head, before.len());
                } else {
                    lemma_chain_ok_grow(before, self.data@, old(self).lookup@[bk], before.len());
                    lemma_chain_get_fuel(
                        self.data@,
                        k,
                        old(self).lookup@[bk],
                        before.len(),
                        self.data@.len(),
                    );
                    lemma_chain_get_grow(before, self.data@, k, old(self).lookup@[bk], before.len());
                }
            }
        }
        None
    }

    /// Rebuilds the table with at least twice the buckets; the rebuilt
    /// table holds at most the slots the old one had (reclaimed slots are
    /// dropped).
    fn expand(&mut self)
        requires
            old(self).wf(),
        ensures
            final(self).wf(),
            final(self).slot_len() <= old(self).slot_len(),
    {
        let mut rebuilt = KeyMap::<T>::with_capacity(
            if self.lookup.len() <= 0x2000_0000 {
                self.lookup.len() * 2
            } else {
                self.lookup.len()
            },
        );
        let n = self.data.len();
        let mut i: usize = 0;
        while i < n
            invariant
                i <= n,
                self.wf(),
                n == self.data@.len(),
                rebuilt.wf(),
                rebuilt.slot_len() <= i,
            decreases n - i,
        {
            if !self.data[i].1.is_invalid() {
                let ghost before = self.data@;
                let slot = &mut self.data[i];
                let mut value = T::invalid();
                core::mem::swap(&mut value, &mut slot.1);
                let key = slot.0;
                proof {
                    assert(forall|k: int|
                        0 <= k < before.len() ==> (#[trigger] self.data@[k]).2 == before[k].2);
                    assert forall|bb: int|
                        0 <= bb < self.lookup@.len() implies chain_ok(
                        self.data@,
                        #[trigger] self.lookup@[bb],
                        self.data@.len(),
                    ) by {
                        lemma_chain_ok_links(before, self.data@, self.lookup@[bb], before.len());
                    }
                }
                rebuilt.insert_no_grow(Identifier(key), value);
            }
            i = i + 1;
        }
        *self = rebuilt;
    }

    /// Stores a value under a key, rebuilding the table twice as wide
    /// first when the slots have caught up with the buckets.  Afterwards
    /// the key looks up exactly the stored value; while no rebuild is
    /// needed, every other key keeps its value and a replaced entry's old
    /// value is returned.
    pub fn insert_by_id(&mut self, id: Identifier, value: T) -> (r: Option<T>)
        requires
            old(self).wf(),
            old(self).slot_len() < 0xffff_fffe,
            value != T::invalid_spec(),
        ensures
            final(self).wf(),
            final(self).m_get(id.0) == Some(value),
            old(self).slot_len() < old(self).bucket_len() ==> {
                &&& (r is Some ==> old(self).m_get(id.0) == r)
                &&& forall|k: u64|
                    k != id.0 ==> #[trigger] final(self).m_get(k) == old(self).m_get(k)
            },
    {
        if self.data.len() >= self.lookup.len() {
            self.expand();
        }
        let r = self.insert_no_grow(id, value);
        r
    }

    /// Stores a value under a name.
    pub fn insert(&mut self, name: &str, value: T) -> (r: Option<T>)
        requires
            old(self).wf(),
            old(self).slot_len() < 0xffff_fffe,
            value != T::invalid_spec(),
        ensures
            final(self).wf(),
            final(self).m_get(sdbm_hash(crate::codec::str_bytes(name@))) == Some(value),
            old(self).slot_len() < old(self).bucket_len() ==> {
                &&& (r is Some ==> old(self).m_get(sdbm_hash(crate::codec::str_bytes(name@)))
                    == r)
                &&& forall|k: u64|
                    k != sdbm_hash(crate::codec::str_bytes(name@)) ==> #[trigger] final(self).m_get(k) == old(self).m_get(k)
            },
    {
        self.insert_by_id(Identifier::new(name), value)
    }

    /// The keys of all live entries, in slot order: walk these and read
    /// through `get_by_id`.
    pub fn iter(&self) -> (r: Vec<Identifier>)
        requires
            self.wf(),
        ensures
            r@.map_values(|p: Identifier| p.0) == self.live_keys(),
    {
        let mut r: Vec<Identifier> = Vec::new();
        let n = self.data.len();
        let mut i: usize = 0;
        let ghost pred = |e: (u64, T, u32)| e.1 != T::invalid_spec();
        let ghost keyf = |e: (u64, T, u32)| e.0;
        let ghost idf = |p: Identifier| p.0;
        proof {
            reveal(Seq::filter);
            assert(self.data@.take(0) =~= Seq::<(u64, T, u32)>::empty());
            assert(r@.map_values(idf) =~= self.data@.take(0).filter(pred).map_values(keyf));
        }
        while i < n
            invariant
                i <= n,
                n == self.data@.len(),
                r@.map_values(idf) == self.data@.take(i as int).filter(pred).map_values(keyf),
                pred == |e: (u64, T, u32)| e.1 != T::invalid_spec(),
                keyf == |e: (u64, T, u32)| e.0,
                idf == |p: Identifier| p.0,
            decreases n - i,
        {
            let ghost r_before = r@;
            proof {
                reveal(Seq::filter);
                assert(self.data@.take(i + 1).drop_last() =~= self.data@.take(i as int));
                assert(self.data@.take(i + 1).last() == self.data@[i as int]);
            }
            if !self.data[i].1.is_invalid() {
                let key = self.data[i].0;
                r.push(Identifier(key));
                proof {
                    let fpart = self.data@.take(i as int).filter(pred);
                    assert(self.data@.take(i + 1).filter(pred) == fpart.push(
                        self.data@[i as int],
                    ));
                    assert(fpart.push(self.data@[i as int]).map_values(keyf) =~= fpart.map_values(
                        keyf,
                    ).push(key));
                    assert(r@.map_values(idf) =~= r_before.map_values(idf).push(key));
                }
            }
            i = i + 1;
        }
        proof {
            assert(self.data@.take(n as int) =~= self.data@);
        }
        r
    }

    /// The same key walk, for callers about to mutate through
    /// `insert_by_id`.
    pub fn iter_mut(&mut self) -> (r: Vec<Identifier>)
        requires
            old(self).wf(),
        ensures
            *final(self) == *old(self),
            r@.map_values(|p: Identifier| p.0) == final(self).live_keys(),
    {
        self.iter()
    }
}

/// A value that may still be the reserved invalid marker: the caller
/// checks before unwrapping.
pub struct Unverified<T>(T);

impl<T: Invalid> Unverified<T> {
    pub closed spec fn value(&self) -> T {
        self.0
    }

    pub fn valid(t: T) -> (r: Self)
        ensures
            r.value() == t,
    {
        Unverified(t)
    }

    pub fn invalid() -> (r: Self)
        ensures
            r.value() == T::invalid_spec(),
    {
        Unverified(T::invalid())
    }

    pub fn is_verified(&self) -> (r: bool)
        ensures
            r == (self.value() != T::invalid_spec()),
    {
        !self.0.is_invalid()
    }

    pub fn is_invalid(&self) -> (r: bool)
        ensures
            r == (self.value() == T::invalid_spec()),
    {
        self.0.is_invalid()
    }

    pub fn unwrap(self) -> (r: T)
        ensures
            r == self.value(),
    {
        self.0
    }

    pub fn into_option(self) -> (r: Option<T>)
        ensures
            self.value() == T::invalid_spec() ==> r is None,
            self.value() != T::invalid_spec() ==> r == Some(self.value()),
    {
        if self.0.is_invalid() {
            None
        } else {
            Some(self.0)
        }
    }
}

impl<T: Invalid> From<Option<T>> for Unverified<T> {
    fn from(value: Option<T>) -> (r: Self) {
        match value {
            Some(v) => Unverified(v),
            None => Unverified(T::invalid()),
        }
    }
}

impl<T: Invalid> vstd::std_specs::convert::FromSpecImpl<Option<T>> for Unverified<T> {
    open spec fn obeys_from_spec() -> bool {
        true
    }

    closed spec fn from_spec(t: Option<T>) -> Self {
        match t {
            Some(v) => Unverified(v),
            None => Unverified(T::invalid_spec()),
        }
    }
}

/// What converting an `Option` yields: the value itself, or the reserved
/// invalid marker for `None`.
pub proof fn lemma_unverified_from_option<T: Invalid>(t: Option<T>)
    ensures
        <Unverified<T> as vstd::std_specs::convert::FromSpec<Option<T>>>::from_spec(
            t,
        ).value() == (match t {
            Some(v) => v,
            None => T::invalid_spec(),
        }),
{
}

/// Name-keyed storage: a hash map from identifiers to handles over an
/// append-only value store.
pub struct Table<A, T> {
    lookup: KeyMap<A>,
    data: Store<A, T>,
}

impl<A: Access + Invalid, T> Table<A, T> {
    pub closed spec fn wf(&self) -> bool {
        self.lookup.wf()
    }

    /// The handle stored under a key, if any.
    pub closed spec fn handle_of(&self, id: u64) -> Option<A> {
        self.lookup.m_get(id)
    }

    /// The stored values in insertion order.
    pub closed spec fn entries(&self) -> Seq<T> {
        self.data.entries()
    }

    /// The lookup map's slot count, which bounds further insertions.
    pub closed spec fn lookup_slots(&self) -> int {
        self.lookup.slot_len()
    }

    pub fn new() -> (r: Self)
        ensures
            r.wf(),
            r.entries() == Seq::<T>::empty(),
            forall|id: u64| (#[trigger] r.handle_of(id)) is None,
    {
        Table { lookup: KeyMap::new(), data: Store::new() }
    }

    pub fn with_capacity(capacity: usize) -> (r: Self)
        ensures
            r.wf(),
            r.entries() == Seq::<T>::empty(),
            forall|id: u64| (#[trigger] r.handle_of(id)) is None,
    {
        Table { lookup: KeyMap::with_capacity(capacity), data: Store::with_capacity(capacity) }
    }

    pub fn len(&self) -> (r: usize)
        ensures
            r == self.entries().len(),
    {
        self.data.len()
    }

    /// Appends the value and stores its handle under the key, so the key
    /// now looks the value up; an appended handle that happens to be the
    /// handle type's reserved invalid value cannot be stored.
    pub fn insert_by_id(&mut self, id: Identifier, value: T)
        requires
            old(self).wf(),
            old(self).entries().len() < 0xffff_fffe,
            old(self).lookup_slots() < 0xffff_fffe,
        ensures
            final(self).wf(),
            final(self).entries() == old(self).entries().push(value),
            A::invalid_spec().idx() != old(self).entries().len() ==> (final(self).handle_of(
                id.0,
            ) matches Some(h) && h.idx() == old(self).entries().len()),
    {
        let key = self.data.push(value);
        if !key.is_invalid() {
            self.lookup.insert_by_id(id, key);
        } else {
            proof {
                A::lemma_idx_injective(key, A::invalid_spec());
            }
        }
    }

    /// Appends the value under a name.
    pub fn insert(&mut self, key: &str, value: T)
        requires
            old(self).wf(),
            old(self).entries().len() < 0xffff_fffe,
            old(self).lookup_slots() < 0xffff_fffe,
        ensures
            final(self).wf(),
            final(self).entries() == old(self).entries().push(value),
    {
        self.insert_by_id(Identifier::new(key), value);
    }

    /// Looks the key up and borrows the value its handle names; a handle
    /// pointing outside the store (never produced by `insert`) is treated
    /// as absent.
    pub fn get_by_id(&self, id: Identifier) -> (r: Option<&T>)
        requires
            self.wf(),
        ensures
            self.handle_of(id.0) is None ==> r is None,
            self.handle_of(id.0) matches Some(h) ==> (0 <= h.idx() < self.entries().len()
                ==> (r matches Some(v) && *v == self.entries()[h.idx()])),
            r matches Some(v) ==> self.handle_of(id.0) matches Some(h) && 0 <= h.idx()
                < self.entries().len() && *v == self.entries()[h.idx()],
    {
        match self.lookup.get_by_id(id) {
            Some(handle) => {
                proof {
                    A::lemma_idx_bounds(*handle);
                }
                let i = handle.index();
                if i < self.data.len() {
                    Some(self.data.get(*handle))
                } else {
                    None
                }
            },
            None => None,
        }
    }

    /// Looks a name up.
    pub fn get(&self, key: &str) -> (r: Option<&T>)
        requires
            self.wf(),
        ensures
            self.handle_of(sdbm_hash(crate::codec::str_bytes(key@))) is None ==> r is None,
            r matches Some(v) ==> self.handle_of(sdbm_hash(crate::codec::str_bytes(key@)))
                matches Some(h) && 0 <= h.idx() < self.entries().len() && *v
                == self.entries()[h.idx()],
    {
        self.get_by_id(Identifier::new(key))
    }
}

} // verus!

