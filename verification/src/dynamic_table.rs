//! The dynamic table: an ordered, bounded, reference-counted store of
//! inserted header fields.
//!
//! Entries carry absolute indices: the first entry ever inserted is index 0,
//! and eviction removes the lowest indices, so an entry at position `p` of
//! the list has absolute index `p + eviction_count`, where `eviction_count ==
//! insert_count - len`. An entry may be evicted only when no pending field
//! section still references it and the peer has acknowledged its existence.

use std::collections::VecDeque;
use vstd::prelude::*;
use vstd::std_specs::cmp::PartialEqSpec;
use crate::types::Header;
use crate::types::QpackError;

verus! {

/// One slot of the dynamic table: the stored field, its size in octets
/// (name length + value length + 32), and the count of unacknowledged field
/// sections that reference it.
pub struct Entry {
    pub name: Vec<u8>,
    pub value: Vec<u8>,
    pub size: usize,
    pub outstanding_count: usize,
}

impl Entry {
    /// The size field agrees with the stored octets.
    pub open spec fn wf(&self) -> bool {
        self.size == self.name@.len() + self.value@.len() + 32
    }

    /// Builds a fresh entry; `None` when the size would not fit in `usize`.
    pub fn new(name: Vec<u8>, value: Vec<u8>) -> (r: Option<Entry>)
        ensures
            match r {
                Some(e) => {
                    &&& e.wf()
                    &&& e.name@ == name@
                    &&& e.value@ == value@
                    &&& e.outstanding_count == 0
                },
                None => name@.len() + value@.len() + 32 > usize::MAX,
            },
    {
        let size = match name.len().checked_add(value.len()) {
            Some(s) => match s.checked_add(32) {
                Some(t) => t,
                None => {
                    return None;
                },
            },
            None => {
                return None;
            },
        };
        Some(Entry { name, value, size, outstanding_count: 0 })
    }

    /// A copy of this entry's field with a reference count of zero.
    pub fn duplicate(&self) -> (r: Entry)
        ensures
            r.name@ == self.name@,
            r.value@ == self.value@,
            r.size == self.size,
            r.outstanding_count == 0,
    {
        Entry {
            name: copy_bytes(&self.name),
            value: copy_bytes(&self.value),
            size: self.size,
            outstanding_count: 0,
        }
    }

    /// A fresh entry sharing this entry's name with a new value; `None` when
    /// the size would not fit in `usize`.
    pub fn refer_name(&self, value: Vec<u8>) -> (r: Option<Entry>)
        ensures
            match r {
                Some(e) => {
                    &&& e.wf()
                    &&& e.name@ == self.name@
                    &&& e.value@ == value@
                    &&& e.outstanding_count == 0
                },
                None => self.name@.len() + value@.len() + 32 > usize::MAX,
            },
    {
        Entry::new(copy_bytes(&self.name), value)
    }
}

/// A verbatim copy of a byte string.
pub fn copy_bytes(v: &Vec<u8>) -> (r: Vec<u8>)
    ensures
        r@ == v@,
{
    vstd::slice::slice_to_vec(v.as_slice())
}

/// The total size of a sequence of entries.
pub open spec fn sum_sizes(s: Seq<Entry>) -> nat
    decreases s.len(),
{
    if s.len() == 0 {
        0
    } else {
        (s[0].size + sum_sizes(s.skip(1))) as nat
    }
}

/// Appending an entry adds its size to the total.
pub proof fn lemma_sum_sizes_push(s: Seq<Entry>, e: Entry)
    ensures
        sum_sizes(s.push(e)) == sum_sizes(s) + e.size,
    decreases s.len(),
{
    if s.len() == 0 {
        assert(s.push(e).skip(1) =~= Seq::<Entry>::empty());
        assert(s.push(e)[0] == e);
        assert(s.push(e).len() == 1);
        assert(sum_sizes(s.push(e)) == (s.push(e)[0].size + sum_sizes(s.push(e).skip(1))) as nat);
        assert(sum_sizes(Seq::<Entry>::empty()) == 0);
        assert(sum_sizes(s) == 0);
    } else {
        assert(s.push(e).skip(1) =~= s.skip(1).push(e));
        assert(s.push(e)[0] == s[0]);
        lemma_sum_sizes_push(s.skip(1), e);
        assert(s.push(e).len() != 0);
        assert(sum_sizes(s.push(e)) == (s.push(e)[0].size + sum_sizes(s.push(e).skip(1))) as nat);
        assert(sum_sizes(s.push(e).skip(1)) == sum_sizes(s.skip(1).push(e)));
        assert(sum_sizes(s) == (s[0].size + sum_sizes(s.skip(1))) as nat);
    }
}

/// Replacing an entry by one of the same size keeps the total.
pub proof fn lemma_sum_sizes_update(s: Seq<Entry>, p: int, e: Entry)
    requires
        0 <= p < s.len(),
        e.size == s[p].size,
    ensures
        sum_sizes(s.update(p, e)) == sum_sizes(s),
    decreases s.len(),
{
    if p == 0 {
        assert(s.update(0, e).skip(1) =~= s.skip(1));
        assert(s.update(0, e)[0] == e);
    } else {
        assert(s.update(p, e).skip(1) =~= s.skip(1).update(p - 1, e));
        assert(s.update(p, e)[0] == s[0]);
        lemma_sum_sizes_update(s.skip(1), p - 1, e);
    }
}

/// How many entries must leave the front before the total is at most `upto`.
pub open spec fn evict_len(s: Seq<Entry>, upto: nat) -> int
    decreases s.len(),
{
    if sum_sizes(s) <= upto {
        0
    } else {
        1 + evict_len(s.skip(1), upto)
    }
}

/// `evict_len` stays within the sequence and reaches its goal.
pub proof fn lemma_evict_len_bounds(s: Seq<Entry>, upto: nat)
    ensures
        0 <= evict_len(s, upto) <= s.len(),
        sum_sizes(s.skip(evict_len(s, upto))) <= upto,
    decreases s.len(),
{
    if sum_sizes(s) <= upto {
        assert(s.skip(0) =~= s);
    } else {
        assert(s.len() > 0);
        lemma_evict_len_bounds(s.skip(1), upto);
        assert(s.skip(1).skip(evict_len(s.skip(1), upto)) =~= s.skip(
            1 + evict_len(s.skip(1), upto),
        ));
    }
}

/// The first `j` entries of `s` may all be evicted: none is referenced by a
/// pending section, and each of their absolute indices (starting at
/// `evicted`) lies below the known received count.
pub open spec fn prefix_evictable(s: Seq<Entry>, evicted: int, knr: int, j: int) -> bool {
    forall|i: int| 0 <= i < j ==> s[i].outstanding_count == 0 && evicted + i < knr
}

/// The dynamic table. `insert_count` counts every successful insertion ever
/// made; `known_received_count` is the prefix of them the peer decoder has
/// acknowledged; the difference `insert_count - len` is how many entries
/// have been evicted.
pub struct DynamicTable {
    pub list: VecDeque<Entry>,
    pub current_size: usize,
    pub capacity: usize,
    pub known_received_count: usize,
    pub max_capacity: usize,
    pub insert_count: usize,
}

impl DynamicTable {
    /// The number of entries evicted so far.
    pub open spec fn eviction_count(&self) -> int {
        self.insert_count - self.list@.len()
    }

    /// Well-formedness: sizes add up, the size respects the capacity bounds,
    /// the acknowledged prefix never exceeds the insert count, and every
    /// entry's size field agrees with its octets.
    pub open spec fn wf(&self) -> bool {
        &&& self.current_size == sum_sizes(self.list@)
        &&& self.current_size <= self.capacity <= self.max_capacity
        &&& self.known_received_count <= self.insert_count
        &&& self.list@.len() <= self.insert_count
        &&& forall|i: int| 0 <= i < self.list@.len() ==> self.list@[i].wf()
    }

    /// The entry at absolute index `abs`.
    pub open spec fn entry_at(&self, abs: int) -> Entry {
        self.list@[abs - self.eviction_count()]
    }

    /// Whether `abs` names a live entry.
    pub open spec fn valid_abs(&self, abs: int) -> bool {
        self.eviction_count() <= abs < self.insert_count
    }

    /// Whether the table can make room for a total of at most `upto` octets
    /// without evicting a referenced or unacknowledged entry.
    pub open spec fn can_evict_upto(&self, upto: nat) -> bool {
        prefix_evictable(
            self.list@,
            self.eviction_count(),
            self.known_received_count as int,
            evict_len(self.list@, upto),
        )
    }

    /// Whether an entry of `size` octets can be inserted now.
    pub open spec fn can_insert_size(&self, size: nat) -> bool {
        &&& self.insert_count < usize::MAX
        &&& size <= self.capacity
        &&& self.can_evict_upto((self.capacity - size) as nat)
    }

    pub fn new(max_capacity: usize) -> (r: Self)
        ensures
            r.wf(),
            r.list@.len() == 0,
            r.current_size == 0,
            r.capacity == 0,
            r.known_received_count == 0,
            r.max_capacity == max_capacity,
            r.insert_count == 0,
    {
        DynamicTable {
            list: VecDeque::new(),
            current_size: 0,
            capacity: 0,
            known_received_count: 0,
            max_capacity,
            insert_count: 0,
        }
    }

    pub fn get_insert_count(&self) -> (r: usize)
        ensures
            r == self.insert_count,
    {
        self.insert_count
    }

    pub fn get_entry_len(&self) -> (r: usize)
        ensures
            r == self.list@.len(),
    {
        self.list.len()
    }

    /// Whether the front of the table can be evicted down to `upto` octets
    /// without touching a referenced or unacknowledged entry.
    pub fn is_evictable_upto(&self, upto: usize) -> (r: bool)
        requires
            self.wf(),
        ensures
            r == self.can_evict_upto(upto as nat),
    {
        let ghost s = self.list@;
        let ghost knr = self.known_received_count as int;
        let len = self.list.len();
        let evicted = self.insert_count - len;
        let mut current = self.current_size;
        let mut j: usize = 0;
        proof {
            assert(s.skip(0) =~= s);
        }
        while current > upto
            invariant
                self.wf(),
                s == self.list@,
                knr == self.known_received_count as int,
                len == s.len(),
                evicted == self.eviction_count(),
                j <= len,
                current == sum_sizes(s.skip(j as int)),
                evict_len(s, upto as nat) == j + evict_len(s.skip(j as int), upto as nat),
                prefix_evictable(s, evicted as int, knr, j as int),
            decreases len - j,
        {
            assert(j < len);
            let entry_refs = self.list[j].outstanding_count;
            if entry_refs > 0 || self.known_received_count <= evicted + j {
                proof {
                    let k = evict_len(s, upto as nat);
                    assert(s.skip(j as int).skip(1) =~= s.skip(j as int + 1));
                    lemma_evict_len_bounds(s.skip(j as int + 1), upto as nat);
                    assert(evict_len(s.skip(j as int), upto as nat) >= 1);
                    assert(k >= j + 1);
                    assert(!(s[j as int].outstanding_count == 0 && evicted + j < knr));
                }
                return false;
            }
            proof {
                assert(s.skip(j as int).skip(1) =~= s.skip(j as int + 1));
                assert(sum_sizes(s.skip(j as int)) == s[j as int].size + sum_sizes(
                    s.skip(j as int + 1),
                ));
            }
            current = current - self.list[j].size;
            j = j + 1;
        }
        proof {
            assert(evict_len(s.skip(j as int), upto as nat) == 0);
            assert(evict_len(s, upto as nat) == j);
        }
        true
    }

    /// Evicts entries from the front until at most `upto` octets remain.
    /// All-or-nothing: fails without mutation when a referenced or
    /// unacknowledged entry stands in the way. Every entry that leaves has a
    /// zero outstanding count and an acknowledged absolute index.
    fn evict_upto(&mut self, upto: usize) -> (r: Result<(), QpackError>)
        requires
            old(self).wf(),
        ensures
            final(self).wf(),
            final(self).capacity == old(self).capacity,
            final(self).max_capacity == old(self).max_capacity,
            final(self).known_received_count == old(self).known_received_count,
            final(self).insert_count == old(self).insert_count,
            match r {
                Ok(()) => {
                    &&& old(self).can_evict_upto(upto as nat)
                    &&& final(self).list@ == old(self).list@.skip(
                        evict_len(old(self).list@, upto as nat),
                    )
                    &&& final(self).current_size <= upto
                },
                Err(e) => {
                    &&& e == QpackError::EncoderStreamError
                    &&& !old(self).can_evict_upto(upto as nat)
                    &&& *final(self) == *old(self)
                },
            },
    {
        if !self.is_evictable_upto(upto) {
            return Err(QpackError::EncoderStreamError);
        }
        let ghost s0 = self.list@;
        let ghost k = evict_len(s0, upto as nat);
        let ghost ic = self.insert_count as int;
        proof {
            lemma_evict_len_bounds(s0, upto as nat);
            assert(s0.skip(0) =~= s0);
        }
        let len0 = self.list.len();
        let mut j: usize = 0;
        while self.current_size > upto
            invariant
                self.wf(),
                len0 == s0.len(),
                j <= k <= len0,
                self.list@ == s0.skip(j as int),
                evict_len(s0, upto as nat) == k,
                k == j + evict_len(self.list@, upto as nat),
                self.capacity == old(self).capacity,
                self.max_capacity == old(self).max_capacity,
                self.known_received_count == old(self).known_received_count,
                self.insert_count == old(self).insert_count,
                s0 == old(self).list@,
            decreases s0.len() - j,
        {
            proof {
                assert(sum_sizes(self.list@) > upto as nat);
                assert(self.list@.len() > 0);
                assert(self.list@.skip(1) =~= s0.skip(j as int + 1));
                lemma_evict_len_bounds(s0.skip(j as int + 1), upto as nat);
                assert(evict_len(self.list@, upto as nat) >= 1);
                assert(sum_sizes(self.list@) == self.list@[0].size + sum_sizes(
                    self.list@.skip(1),
                ));
            }
            let front = self.list.pop_front();
            match front {
                Some(e) => {
                    self.current_size = self.current_size - e.size;
                },
                None => {
                    proof {
                        assert(false);
                    }
                },
            }
            j = j + 1;
        }
        proof {
            assert(evict_len(self.list@, upto as nat) == 0);
            assert(j == k);
        }
        Ok(())
    }

    /// Inserts a prepared entry. Fails without mutation when the entry's
    /// size exceeds the capacity, when room cannot be made without evicting
    /// a referenced or unacknowledged entry, or when the insert count would
    /// overflow the machine word.
    pub fn insert_table_entry(&mut self, entry: Entry) -> (r: Result<(), QpackError>)
        requires
            old(self).wf(),
            entry.wf(),
            entry.outstanding_count == 0,
        ensures
            final(self).wf(),
            final(self).capacity == old(self).capacity,
            final(self).max_capacity == old(self).max_capacity,
            final(self).known_received_count == old(self).known_received_count,
            match r {
                Ok(()) => {
                    &&& old(self).can_insert_size(entry.size as nat)
                    &&& final(self).insert_count == old(self).insert_count + 1
                    &&& final(self).list@ == old(self).list@.skip(
                        evict_len(old(self).list@, (old(self).capacity - entry.size) as nat),
                    ).push(entry)
                },
                Err(e) => {
                    &&& e == QpackError::EncoderStreamError
                    &&& !old(self).can_insert_size(entry.size as nat)
                    &&& *final(self) == *old(self)
                },
            },
    {
        if self.insert_count == usize::MAX {
            return Err(QpackError::EncoderStreamError);
        }
        if self.capacity < entry.size {
            return Err(QpackError::EncoderStreamError);
        }
        let upto = self.capacity - entry.size;
        match self.evict_upto(upto) {
            Ok(()) => (),
            Err(e) => {
                return Err(e);
            },
        }
        let size = entry.size;
        let ghost evicted_list = self.list@;
        self.list.push_back(entry);
        proof {
            lemma_sum_sizes_push(evicted_list, entry);
        }
        self.current_size = self.current_size + size;
        self.insert_count = self.insert_count + 1;
        Ok(())
    }

    /// Inserts a header field, as by an Insert-With-Literal-Name
    /// instruction. Fails without mutation when the field does not fit.
    pub fn insert_header(&mut self, header: Header) -> (r: Result<(), QpackError>)
        requires
            old(self).wf(),
        ensures
            final(self).wf(),
            final(self).capacity == old(self).capacity,
            final(self).max_capacity == old(self).max_capacity,
            final(self).known_received_count == old(self).known_received_count,
            match r {
                Ok(()) => {
                    &&& old(self).can_insert_size(header.size_spec())
                    &&& final(self).insert_count == old(self).insert_count + 1
                    &&& exists|e: Entry|
                        {
                            &&& e.name@ == header.name_bytes()
                            &&& e.value@ == header.value_bytes()
                            &&& e.size == header.size_spec()
                            &&& e.outstanding_count == 0
                            &&& final(self).list@ == old(self).list@.skip(
                                evict_len(
                                    old(self).list@,
                                    (old(self).capacity - header.size_spec()) as nat,
                                ),
                            ).push(e)
                        }
                },
                Err(e) => {
                    &&& e == QpackError::EncoderStreamError
                    &&& !old(self).can_insert_size(header.size_spec())
                    &&& *final(self) == *old(self)
                },
            },
    {
        match Entry::new(header.name.value, header.value.value) {
            Some(entry) => {
                let ghost ge = entry;
                let r = self.insert_table_entry(entry);
                proof {
                    if r is Ok {
                        assert(final(self).list@ == old(self).list@.skip(
                            evict_len(
                                old(self).list@,
                                (old(self).capacity - ge.size) as nat,
                            ),
                        ).push(ge));
                    }
                }
                r
            },
            None => {
                // The field is larger than any possible capacity.
                assert(header.size_spec() > usize::MAX >= self.capacity);
                Err(QpackError::EncoderStreamError)
            },
        }
    }

    /// Sets the table capacity, evicting entries as needed. Fails without
    /// mutation when `cap` exceeds the configured maximum or when the
    /// required evictions would touch a referenced or unacknowledged entry.
    pub fn set_capacity(&mut self, cap: usize) -> (r: Result<(), QpackError>)
        requires
            old(self).wf(),
        ensures
            final(self).wf(),
            final(self).max_capacity == old(self).max_capacity,
            final(self).known_received_count == old(self).known_received_count,
            final(self).insert_count == old(self).insert_count,
            match r {
                Ok(()) => {
                    &&& cap <= old(self).max_capacity
                    &&& old(self).can_evict_upto(cap as nat)
                    &&& final(self).capacity == cap
                    &&& final(self).list@ == old(self).list@.skip(
                        evict_len(old(self).list@, cap as nat),
                    )
                },
                Err(e) => {
                    &&& e == QpackError::EncoderStreamError
                    &&& (cap > old(self).max_capacity || !old(self).can_evict_upto(cap as nat))
                    &&& *final(self) == *old(self)
                },
            },
    {
        if self.max_capacity < cap {
            return Err(QpackError::EncoderStreamError);
        }
        match self.evict_upto(cap) {
            Ok(()) => {
                self.capacity = cap;
                Ok(())
            },
            Err(e) => Err(e),
        }
    }

    /// The header at absolute index `abs`; fails when `abs` is below the
    /// eviction count or at or above the insert count.
    pub fn get(&self, abs: usize) -> (r: Result<Header, QpackError>)
        requires
            self.wf(),
        ensures
            match r {
                Ok(h) => {
                    &&& self.valid_abs(abs as int)
                    &&& h.name_bytes() == self.entry_at(abs as int).name@
                    &&& h.value_bytes() == self.entry_at(abs as int).value@
                    &&& !h.sensitive
                    &&& !h.name.huffman
                    &&& !h.value.huffman
                },
                Err(e) => {
                    &&& e == QpackError::DecompressionFailed
                    &&& !self.valid_abs(abs as int)
                },
            },
    {
        let len = self.list.len();
        let evicted = self.insert_count - len;
        if abs < evicted || abs >= self.insert_count {
            return Err(QpackError::DecompressionFailed);
        }
        let p = abs - evicted;
        let name = copy_bytes(&self.list[p].name);
        let value = copy_bytes(&self.list[p].value);
        Ok(Header::new(name, value, false))
    }

    /// A copy of the entry at absolute index `abs`, its reference count
    /// reset; fails when `abs` does not name a live entry.
    pub fn get_entry(&self, abs: usize) -> (r: Result<Entry, QpackError>)
        requires
            self.wf(),
        ensures
            match r {
                Ok(e) => {
                    &&& self.valid_abs(abs as int)
                    &&& e.name@ == self.entry_at(abs as int).name@
                    &&& e.value@ == self.entry_at(abs as int).value@
                    &&& e.size == self.entry_at(abs as int).size
                    &&& e.outstanding_count == 0
                    &&& e.wf()
                },
                Err(e) => {
                    &&& e == QpackError::DecompressionFailed
                    &&& !self.valid_abs(abs as int)
                },
            },
    {
        let len = self.list.len();
        let evicted = self.insert_count - len;
        if abs < evicted || abs >= self.insert_count {
            return Err(QpackError::DecompressionFailed);
        }
        let p = abs - evicted;
        Ok(self.list[p].duplicate())
    }

    /// Looks the field up, most recent entry first. Returns `(true, abs)`
    /// for the highest absolute index holding the same name and value;
    /// otherwise `(false, abs)` for the highest absolute index holding the
    /// name; otherwise `(false, usize::MAX)`.
    pub fn find_index(&self, target: &Header) -> (r: (bool, usize))
        requires
            self.wf(),
        ensures
            r.0 ==> {
                &&& self.valid_abs(r.1 as int)
                &&& both_match(self.entry_at(r.1 as int), *target)
                &&& forall|a: int|
                    r.1 < a < self.insert_count ==> !both_match(self.entry_at(a), *target)
            },
            (!r.0 && r.1 != usize::MAX) ==> {
                &&& self.valid_abs(r.1 as int)
                &&& name_match(self.entry_at(r.1 as int), *target)
                &&& forall|a: int|
                    r.1 < a < self.insert_count ==> !name_match(self.entry_at(a), *target)
                &&& forall|a: int|
                    self.eviction_count() <= a < self.insert_count ==> !both_match(
                        self.entry_at(a),
                        *target,
                    )
            },
            (!r.0 && r.1 == usize::MAX) ==> forall|a: int|
                self.eviction_count() <= a < self.insert_count ==> !name_match(
                    self.entry_at(a),
                    *target,
                ),
    {
        let ghost s = self.list@;
        let len = self.list.len();
        let evicted = self.insert_count - len;
        let mut cand: usize = usize::MAX;
        let mut p = len;
        while p > 0
            invariant
                self.wf(),
                s == self.list@,
                len == s.len(),
                evicted == self.eviction_count(),
                p <= len,
                forall|q: int| p <= q < len ==> !both_match(s[q], *target),
                cand != usize::MAX ==> {
                    &&& p <= cand - evicted < len
                    &&& name_match(s[cand - evicted], *target)
                    &&& forall|q: int| cand - evicted < q < len ==> !name_match(s[q], *target)
                },
                cand == usize::MAX ==> forall|q: int| p <= q < len ==> !name_match(s[q], *target),
            decreases p,
        {
            p = p - 1;
            let does_name_match = bytes_eq(&self.list[p].name, &target.name.value);
            if does_name_match {
                if bytes_eq(&self.list[p].value, &target.value.value) {
                    return (true, evicted + p);
                }
                if cand == usize::MAX {
                    cand = evicted + p;
                }
            }
        }
        (false, cand)
    }

    /// Raises the outstanding reference count of the entry at absolute
    /// index `abs`; fails without mutation when `abs` does not name a live
    /// entry or the count is saturated.
    pub fn ref_entry_at(&mut self, abs: usize) -> (r: Result<(), QpackError>)
        requires
            old(self).wf(),
        ensures
            final(self).wf(),
            final(self).capacity == old(self).capacity,
            final(self).max_capacity == old(self).max_capacity,
            final(self).known_received_count == old(self).known_received_count,
            final(self).insert_count == old(self).insert_count,
            final(self).current_size == old(self).current_size,
            match r {
                Ok(()) => {
                    &&& old(self).valid_abs(abs as int)
                    &&& old(self).entry_at(abs as int).outstanding_count < usize::MAX
                    &&& final(self).list@ == old(self).list@.update(
                        abs - old(self).eviction_count(),
                        bump_entry(old(self).entry_at(abs as int)),
                    )
                },
                Err(e) => {
                    &&& e == QpackError::DecompressionFailed
                    &&& (!old(self).valid_abs(abs as int) || old(self).entry_at(
                        abs as int,
                    ).outstanding_count == usize::MAX)
                    &&& *final(self) == *old(self)
                },
            },
    {
        let len = self.list.len();
        let evicted = self.insert_count - len;
        if abs < evicted || abs >= self.insert_count {
            return Err(QpackError::DecompressionFailed);
        }
        let p = abs - evicted;
        if self.list[p].outstanding_count == usize::MAX {
            return Err(QpackError::DecompressionFailed);
        }
        let ghost s0 = self.list@;
        let e = match self.list.remove(p) {
            Some(e) => e,
            None => {
                proof {
                    assert(false);
                }
                return Err(QpackError::DecompressionFailed);
            },
        };
        let bumped = Entry {
            name: e.name,
            value: e.value,
            size: e.size,
            outstanding_count: e.outstanding_count + 1,
        };
        self.list.insert(p, bumped);
        proof {
            assert(self.list@ =~= s0.update(p as int, bump_entry(s0[p as int])));
            lemma_sum_sizes_update(s0, p as int, bump_entry(s0[p as int]));
        }
        Ok(())
    }

    /// Lowers the outstanding reference count of the entry at absolute
    /// index `abs`; fails without mutation when `abs` does not name a live
    /// entry or the count is already zero.
    pub fn deref_entry_at(&mut self, abs: usize) -> (r: Result<(), QpackError>)
        requires
            old(self).wf(),
        ensures
            final(self).wf(),
            final(self).capacity == old(self).capacity,
            final(self).max_capacity == old(self).max_capacity,
            final(self).known_received_count == old(self).known_received_count,
            final(self).insert_count == old(self).insert_count,
            final(self).current_size == old(self).current_size,
            match r {
                Ok(()) => {
                    &&& old(self).valid_abs(abs as int)
                    &&& old(self).entry_at(abs as int).outstanding_count >= 1
                    &&& final(self).list@ == old(self).list@.update(
                        abs - old(self).eviction_count(),
                        drop_entry(old(self).entry_at(abs as int)),
                    )
                },
                Err(e) => {
                    &&& e == QpackError::DecompressionFailed
                    &&& (!old(self).valid_abs(abs as int) || old(self).entry_at(
                        abs as int,
                    ).outstanding_count == 0)
                    &&& *final(self) == *old(self)
                },
            },
    {
        let len = self.list.len();
        let evicted = self.insert_count - len;
        if abs < evicted || abs >= self.insert_count {
            return Err(QpackError::DecompressionFailed);
        }
        let p = abs - evicted;
        if self.list[p].outstanding_count == 0 {
            return Err(QpackError::DecompressionFailed);
        }
        let ghost s0 = self.list@;
        let e = match self.list.remove(p) {
            Some(e) => e,
            None => {
                proof {
                    assert(false);
                }
                return Err(QpackError::DecompressionFailed);
            },
        };
        let dropped = Entry {
            name: e.name,
            value: e.value,
            size: e.size,
            outstanding_count: e.outstanding_count - 1,
        };
        self.list.insert(p, dropped);
        proof {
            assert(self.list@ =~= s0.update(p as int, drop_entry(s0[p as int])));
            lemma_sum_sizes_update(s0, p as int, drop_entry(s0[p as int]));
        }
        Ok(())
    }

    /// Records a section acknowledgement: advances the known received count
    /// to at least `section` and releases one reference per index in `ids`.
    /// Fails when an index does not name a live entry with an outstanding
    /// reference; the indices before it have then already been released.
    pub fn ack_section(&mut self, section: usize, ids: &Vec<usize>) -> (r: Result<
        (),
        QpackError,
    >)
        requires
            old(self).wf(),
            section <= old(self).insert_count,
        ensures
            final(self).wf(),
            final(self).capacity == old(self).capacity,
            final(self).max_capacity == old(self).max_capacity,
            final(self).insert_count == old(self).insert_count,
            final(self).current_size == old(self).current_size,
            final(self).known_received_count == max_usize(
                old(self).known_received_count,
                section,
            ),
            match r {
                Ok(()) => deref_seq(
                    old(self).list@,
                    old(self).eviction_count(),
                    ids@,
                ) == Some(final(self).list@),
                Err(e) => {
                    &&& e == QpackError::DecompressionFailed
                    &&& deref_seq(old(self).list@, old(self).eviction_count(), ids@) is None
                    &&& exists|k: int|
                        0 <= k <= ids@.len() && deref_seq(
                            old(self).list@,
                            old(self).eviction_count(),
                            ids@.take(k),
                        ) == Some(final(self).list@)
                },
            },
    {
        if self.known_received_count < section {
            self.known_received_count = section;
        }
        let ghost s0 = self.list@;
        let ghost ec = self.eviction_count();
        let mut i: usize = 0;
        proof {
            assert(ids@.take(0) =~= Seq::<usize>::empty());
            assert(ids@.skip(0) =~= ids@);
        }
        while i < ids.len()
            invariant
                self.wf(),
                i <= ids@.len(),
                ec == self.eviction_count(),
                ec == old(self).eviction_count(),
                self.capacity == old(self).capacity,
                self.max_capacity == old(self).max_capacity,
                self.insert_count == old(self).insert_count,
                self.current_size == old(self).current_size,
                self.known_received_count == max_usize(old(self).known_received_count, section),
                s0 == old(self).list@,
                deref_seq(s0, ec, ids@.take(i as int)) == Some(self.list@),
                deref_seq(s0, ec, ids@) == deref_seq(self.list@, ec, ids@.skip(i as int)),
            decreases ids@.len() - i,
        {
            let ghost pre = self.list@;
            let id = ids[i];
            match self.deref_entry_at(id) {
                Ok(()) => (),
                Err(e) => {
                    proof {
                        assert(ids@.skip(i as int)[0] == id);
                        assert(pre.len() == self.insert_count - ec);
                        assert(self.list@ == pre);
                        assert(deref_seq(pre, ec, ids@.skip(i as int)) is None);
                        assert(ec == old(self).eviction_count());
                        assert(s0 == old(self).list@);
                        assert(deref_seq(old(self).list@, old(self).eviction_count(), ids@)
                            is None);
                        assert(deref_seq(s0, ec, ids@.take(i as int)) == Some(self.list@));
                        assert(0 <= i as int <= ids@.len() && deref_seq(
                            old(self).list@,
                            old(self).eviction_count(),
                            ids@.take(i as int),
                        ) == Some(self.list@));
                    }
                    return Err(e);
                },
            }
            proof {
                assert(ids@.skip(i as int)[0] == id);
                assert(ids@.skip(i as int).skip(1) =~= ids@.skip(i as int + 1));
                assert(ids@.take(i as int + 1) =~= ids@.take(i as int).push(id));
                lemma_deref_seq_push(s0, ec, ids@.take(i as int), id, pre, self.list@);
            }
            i = i + 1;
        }
        proof {
            assert(ids@.take(ids@.len() as int) =~= ids@);
            assert(ids@.skip(ids@.len() as int) =~= Seq::<usize>::empty());
        }
        Ok(())
    }

    /// Takes one reference per absolute index in `ids`, in order, as when a
    /// planned field section is committed. Fails when an index does not name
    /// a live entry with room in its count; the indices before it have then
    /// already been taken.
    pub fn ref_section(&mut self, ids: &Vec<usize>) -> (r: Result<(), QpackError>)
        requires
            old(self).wf(),
        ensures
            final(self).wf(),
            final(self).capacity == old(self).capacity,
            final(self).max_capacity == old(self).max_capacity,
            final(self).insert_count == old(self).insert_count,
            final(self).current_size == old(self).current_size,
            final(self).known_received_count == old(self).known_received_count,
            match r {
                Ok(()) => ref_seq(old(self).list@, old(self).eviction_count(), ids@) == Some(
                    final(self).list@,
                ),
                Err(e) => {
                    &&& e == QpackError::DecompressionFailed
                    &&& ref_seq(old(self).list@, old(self).eviction_count(), ids@) is None
                    &&& exists|k: int|
                        0 <= k <= ids@.len() && ref_seq(
                            old(self).list@,
                            old(self).eviction_count(),
                            ids@.take(k),
                        ) == Some(final(self).list@)
                },
            },
    {
        let ghost s0 = self.list@;
        let ghost ec = self.eviction_count();
        let mut i: usize = 0;
        proof {
            assert(ids@.take(0) =~= Seq::<usize>::empty());
            assert(ids@.skip(0) =~= ids@);
        }
        while i < ids.len()
            invariant
                self.wf(),
                i <= ids@.len(),
                ec == self.eviction_count(),
                ec == old(self).eviction_count(),
                self.capacity == old(self).capacity,
                self.max_capacity == old(self).max_capacity,
                self.insert_count == old(self).insert_count,
                self.current_size == old(self).current_size,
                self.known_received_count == old(self).known_received_count,
                s0 == old(self).list@,
                ref_seq(s0, ec, ids@.take(i as int)) == Some(self.list@),
                ref_seq(s0, ec, ids@) == ref_seq(self.list@, ec, ids@.skip(i as int)),
            decreases ids@.len() - i,
        {
            let ghost pre = self.list@;
            let id = ids[i];
            match self.ref_entry_at(id) {
                Ok(()) => (),
                Err(e) => {
                    proof {
                        assert(ids@.skip(i as int)[0] == id);
                        assert(pre.len() == self.insert_count - ec);
                        assert(self.list@ == pre);
                        assert(ref_seq(pre, ec, ids@.skip(i as int)) is None);
                        assert(ref_seq(old(self).list@, old(self).eviction_count(), ids@)
                            is None);
                        assert(0 <= i as int <= ids@.len() && ref_seq(
                            old(self).list@,
                            old(self).eviction_count(),
                            ids@.take(i as int),
                        ) == Some(self.list@));
                    }
                    return Err(e);
                },
            }
            proof {
                assert(ids@.skip(i as int)[0] == id);
                assert(ids@.skip(i as int).skip(1) =~= ids@.skip(i as int + 1));
                assert(ids@.take(i as int + 1) =~= ids@.take(i as int).push(id));
                lemma_ref_seq_push(s0, ec, ids@.take(i as int), id, pre, self.list@);
            }
            i = i + 1;
        }
        proof {
            assert(ids@.take(ids@.len() as int) =~= ids@);
            assert(ids@.skip(ids@.len() as int) =~= Seq::<usize>::empty());
        }
        Ok(())
    }

    /// Advances the known received count by `increment`, as by an
    /// Insert-Count-Increment instruction. Fails without mutation when the
    /// increment is zero or the result would exceed the insert count.
    pub fn insert_count_increment(&mut self, increment: usize) -> (r: Result<(), QpackError>)
        requires
            old(self).wf(),
        ensures
            final(self).wf(),
            final(self).capacity == old(self).capacity,
            final(self).max_capacity == old(self).max_capacity,
            final(self).insert_count == old(self).insert_count,
            final(self).current_size == old(self).current_size,
            final(self).list@ == old(self).list@,
            match r {
                Ok(()) => {
                    &&& increment >= 1
                    &&& old(self).known_received_count + increment <= old(self).insert_count
                    &&& final(self).known_received_count == old(self).known_received_count
                        + increment
                },
                Err(e) => {
                    &&& e == QpackError::DecoderStreamError
                    &&& (increment == 0 || old(self).known_received_count + increment > old(
                        self,
                    ).insert_count)
                    &&& *final(self) == *old(self)
                },
            },
    {
        if increment == 0 {
            return Err(QpackError::DecoderStreamError);
        }
        match self.known_received_count.checked_add(increment) {
            Some(next) => {
                if next > self.insert_count {
                    return Err(QpackError::DecoderStreamError);
                }
                self.known_received_count = next;
                Ok(())
            },
            None => Err(QpackError::DecoderStreamError),
        }
    }

    /// Whether the given fields, taken together, can be inserted: their
    /// total size fits the capacity after evicting only unreferenced,
    /// acknowledged entries.
    pub fn is_insertable(&self, headers: &Vec<Header>) -> (r: bool)
        requires
            self.wf(),
        ensures
            r == {
                &&& headers_total_size(headers@) <= self.capacity
                &&& self.can_evict_upto((self.capacity - headers_total_size(headers@)) as nat)
            },
    {
        let mut total: usize = 0;
        let mut i: usize = 0;
        proof {
            assert(headers@.take(0) =~= Seq::<Header>::empty());
        }
        while i < headers.len()
            invariant
                self.wf(),
                i <= headers@.len(),
                total == headers_total_size(headers@.take(i as int)),
                total <= self.capacity,
            decreases headers@.len() - i,
        {
            let h_size = match headers[i].size() {
                Some(s) => s,
                None => {
                    proof {
                        lemma_headers_total_size_extend(headers@, i as int);
                    }
                    return false;
                },
            };
            let next = match total.checked_add(h_size) {
                Some(t) => t,
                None => {
                    proof {
                        lemma_headers_total_size_extend(headers@, i as int);
                    }
                    return false;
                },
            };
            if next > self.capacity {
                proof {
                    lemma_headers_total_size_extend(headers@, i as int);
                }
                return false;
            }
            proof {
                assert(headers@.take(i as int + 1) =~= headers@.take(i as int).push(
                    headers@[i as int],
                ));
                lemma_headers_size_push(headers@.take(i as int), headers@[i as int]);
            }
            total = next;
            i = i + 1;
        }
        proof {
            assert(headers@.take(headers@.len() as int) =~= headers@);
        }
        self.is_evictable_upto(self.capacity - total)
    }

    /// Re-inserts the entry at relative index `rel` (0 being the most
    /// recent insertion), sharing its field. Fails without mutation when
    /// the index is stale or out of range, or the copy does not fit.
    pub fn duplicate(&mut self, rel: usize) -> (r: Result<(), QpackError>)
        requires
            old(self).wf(),
        ensures
            final(self).wf(),
            final(self).capacity == old(self).capacity,
            final(self).max_capacity == old(self).max_capacity,
            final(self).known_received_count == old(self).known_received_count,
            match r {
                Ok(()) => {
                    &&& rel < old(self).insert_count
                    &&& old(self).valid_abs(old(self).insert_count - 1 - rel)
                    &&& final(self).insert_count == old(self).insert_count + 1
                    &&& exists|e: Entry|
                        {
                            &&& e.name@ == old(self).entry_at(
                                old(self).insert_count - 1 - rel,
                            ).name@
                            &&& e.value@ == old(self).entry_at(
                                old(self).insert_count - 1 - rel,
                            ).value@
                            &&& e.outstanding_count == 0
                            &&& final(self).list@ == old(self).list@.skip(
                                evict_len(
                                    old(self).list@,
                                    (old(self).capacity - e.size) as nat,
                                ),
                            ).push(e)
                        }
                },
                Err(e) => {
                    &&& e == QpackError::DecompressionFailed || e
                        == QpackError::EncoderStreamError
                    &&& *final(self) == *old(self)
                },
            },
    {
        if rel >= self.insert_count {
            return Err(QpackError::DecompressionFailed);
        }
        let abs = self.insert_count - 1 - rel;
        let entry = match self.get_entry(abs) {
            Ok(e) => e,
            Err(e) => {
                return Err(e);
            },
        };
        let ghost ge = entry;
        let r = self.insert_table_entry(entry);
        match r {
            Ok(()) => {
                proof {
                    assert(final(self).list@ == old(self).list@.skip(
                        evict_len(old(self).list@, (old(self).capacity - ge.size) as nat),
                    ).push(ge));
                }
                Ok(())
            },
            Err(e) => Err(e),
        }
    }
}

/// `e` with one more outstanding reference.
pub open spec fn bump_entry(e: Entry) -> Entry {
    Entry {
        name: e.name,
        value: e.value,
        size: e.size,
        outstanding_count: (e.outstanding_count + 1) as usize,
    }
}

/// `e` with one outstanding reference released.
pub open spec fn drop_entry(e: Entry) -> Entry {
    Entry {
        name: e.name,
        value: e.value,
        size: e.size,
        outstanding_count: (e.outstanding_count - 1) as usize,
    }
}

/// The larger of two machine words.
pub open spec fn max_usize(a: usize, b: usize) -> usize {
    if a < b {
        b
    } else {
        a
    }
}

/// Takes one reference per absolute index in `ids`, in order; `None` when an
/// index is out of range or its entry's count is saturated.
pub open spec fn ref_seq(s: Seq<Entry>, ec: int, ids: Seq<usize>) -> Option<Seq<Entry>>
    decreases ids.len(),
{
    if ids.len() == 0 {
        Some(s)
    } else {
        let p = ids[0] - ec;
        if 0 <= p < s.len() && s[p as int].outstanding_count < usize::MAX {
            ref_seq(s.update(p as int, bump_entry(s[p as int])), ec, ids.skip(1))
        } else {
            None
        }
    }
}

/// One taken reference extends a `ref_seq` chain by one index.
pub proof fn lemma_ref_seq_push(
    s0: Seq<Entry>,
    ec: int,
    ids: Seq<usize>,
    id: usize,
    pre: Seq<Entry>,
    post: Seq<Entry>,
)
    requires
        ref_seq(s0, ec, ids) == Some(pre),
        0 <= id - ec < pre.len(),
        pre[id - ec].outstanding_count < usize::MAX,
        post == pre.update(id - ec, bump_entry(pre[id - ec])),
    ensures
        ref_seq(s0, ec, ids.push(id)) == Some(post),
    decreases ids.len(),
{
    if ids.len() == 0 {
        assert(ids.push(id)[0] == id);
        assert(ids.push(id).skip(1) =~= Seq::<usize>::empty());
        assert(s0 == pre);
        assert(post == s0.update(id - ec, bump_entry(s0[id - ec])));
        assert(ref_seq(s0.update(id - ec, bump_entry(s0[id - ec])), ec, Seq::<usize>::empty())
            == Some(post));
    } else {
        let p = ids[0] - ec;
        assert(ids.push(id)[0] == ids[0]);
        assert(ids.push(id).skip(1) =~= ids.skip(1).push(id));
        lemma_ref_seq_push(s0.update(p, bump_entry(s0[p])), ec, ids.skip(1), id, pre, post);
    }
}

/// Releases one reference per absolute index in `ids`, in order, over a
/// sequence whose first entry has absolute index `ec`; `None` when an index
/// is out of range or its entry has no outstanding reference.
pub open spec fn deref_seq(s: Seq<Entry>, ec: int, ids: Seq<usize>) -> Option<Seq<Entry>>
    decreases ids.len(),
{
    if ids.len() == 0 {
        Some(s)
    } else {
        let p = ids[0] - ec;
        if 0 <= p < s.len() && s[p as int].outstanding_count >= 1 {
            deref_seq(s.update(p as int, drop_entry(s[p as int])), ec, ids.skip(1))
        } else {
            None
        }
    }
}

/// One released reference extends a `deref_seq` chain by one index.
pub proof fn lemma_deref_seq_push(
    s0: Seq<Entry>,
    ec: int,
    ids: Seq<usize>,
    id: usize,
    pre: Seq<Entry>,
    post: Seq<Entry>,
)
    requires
        deref_seq(s0, ec, ids) == Some(pre),
        0 <= id - ec < pre.len(),
        pre[id - ec].outstanding_count >= 1,
        post == pre.update(id - ec, drop_entry(pre[id - ec])),
    ensures
        deref_seq(s0, ec, ids.push(id)) == Some(post),
    decreases ids.len(),
{
    if ids.len() == 0 {
        assert(ids.push(id)[0] == id);
        assert(ids.push(id).skip(1) =~= Seq::<usize>::empty());
        assert(s0 == pre);
        assert(post == s0.update(id - ec, drop_entry(s0[id - ec])));
        assert(deref_seq(s0.update(id - ec, drop_entry(s0[id - ec])), ec, Seq::<usize>::empty())
            == Some(post));
    } else {
        let p = ids[0] - ec;
        assert(ids.push(id)[0] == ids[0]);
        assert(ids.push(id).skip(1) =~= ids.skip(1).push(id));
        assert(deref_seq(s0, ec, ids) == deref_seq(
            s0.update(p, drop_entry(s0[p])),
            ec,
            ids.skip(1),
        ));
        lemma_deref_seq_push(s0.update(p, drop_entry(s0[p])), ec, ids.skip(1), id, pre, post);
    }
}

/// The total size of a list of header fields.
pub open spec fn headers_total_size(hs: Seq<Header>) -> nat
    decreases hs.len(),
{
    if hs.len() == 0 {
        0
    } else {
        (hs[0].size_spec() + headers_total_size(hs.skip(1))) as nat
    }
}

/// Appending a field adds its size to the total.
pub proof fn lemma_headers_size_push(hs: Seq<Header>, h: Header)
    ensures
        headers_total_size(hs.push(h)) == headers_total_size(hs) + h.size_spec(),
    decreases hs.len(),
{
    if hs.len() == 0 {
        assert(hs.push(h).skip(1) =~= Seq::<Header>::empty());
        assert(hs.push(h)[0] == h);
        assert(headers_total_size(Seq::<Header>::empty()) == 0);
    } else {
        assert(hs.push(h).skip(1) =~= hs.skip(1).push(h));
        assert(hs.push(h)[0] == hs[0]);
        lemma_headers_size_push(hs.skip(1), h);
    }
}

/// A list's total size is at least any one member's size.
pub proof fn lemma_headers_total_size_extend(hs: Seq<Header>, i: int)
    requires
        0 <= i < hs.len(),
    ensures
        headers_total_size(hs) >= headers_total_size(hs.take(i)) + hs[i].size_spec(),
    decreases i,
{
    lemma_headers_size_push(hs.take(i), hs[i]);
    assert(hs.take(i + 1) =~= hs.take(i).push(hs[i]));
    lemma_headers_total_prefix(hs, i + 1);
}

/// A prefix never outweighs the whole.
pub proof fn lemma_headers_total_prefix(hs: Seq<Header>, k: int)
    requires
        0 <= k <= hs.len(),
    ensures
        headers_total_size(hs) >= headers_total_size(hs.take(k)),
    decreases hs.len(),
{
    if k == 0 {
        assert(hs.take(0) =~= Seq::<Header>::empty());
    } else {
        assert(hs.len() > 0);
        assert(hs.take(k)[0] == hs[0]);
        assert(hs.take(k).skip(1) =~= hs.skip(1).take(k - 1));
        lemma_headers_total_prefix(hs.skip(1), k - 1);
    }
}

/// The stored field of `e` equals `h`'s name and value.
pub open spec fn both_match(e: Entry, h: Header) -> bool {
    e.name@ == h.name_bytes() && e.value@ == h.value_bytes()
}

/// The stored field of `e` has `h`'s name.
pub open spec fn name_match(e: Entry, h: Header) -> bool {
    e.name@ == h.name_bytes()
}

/// Byte-string equality.
pub fn bytes_eq(a: &Vec<u8>, b: &Vec<u8>) -> (r: bool)
    ensures
        r == (a@ == b@),
{
    let r = a == b;
    proof {
        if r {
            assert(a@ =~= b@);
        }
        if a@ == b@ {
            assert(a.eq_spec(b));
        }
    }
    r
}

} // verus!
