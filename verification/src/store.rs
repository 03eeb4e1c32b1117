//! Two-tier result store.
//!
//! Each schema keeps a bounded in-memory tier and an unbounded spill tier;
//! the store behaves as the concatenation of the two.  A store holds
//! records of exactly one schema at a time: switching modes clears it.

use vstd::prelude::*;
use crate::values::ValueType;
use crate::fuzzy::FuzzySearchResultItem;

verus! {

/// One exact-schema record: the address that matched and the element type
/// that matched there.
#[derive(Debug, Clone, Copy, PartialEq, Eq, Structural)]
pub struct SearchResultItem {
    pub address: u64,
    pub typ: ValueType,
}

impl SearchResultItem {
    pub fn new_exact(address: u64, typ: ValueType) -> (r: Self)
        ensures
            r == (SearchResultItem { address, typ }),
    {
        SearchResultItem { address, typ }
    }
}

/// Which record schema a store currently holds.
#[derive(Debug, Clone, Copy, PartialEq, Eq, Structural)]
pub enum SearchResultMode {
    Exact,
    Fuzzy,
}

/// Which elements of `s` survive when the listed positions are removed.
pub open spec fn spec_remove_indices<T>(s: Seq<T>, kill: Seq<usize>) -> Seq<T>
    decreases s.len(),
{
    if s.len() == 0 {
        Seq::empty()
    } else {
        let rest = spec_remove_indices(s.drop_last(), kill);
        if kill.contains((s.len() - 1) as usize) {
            rest
        } else {
            rest.push(s.last())
        }
    }
}

/// Which elements of `s` survive when only the listed positions are kept.
pub open spec fn spec_keep_indices<T>(s: Seq<T>, keep: Seq<usize>) -> Seq<T>
    decreases s.len(),
{
    if s.len() == 0 {
        Seq::empty()
    } else {
        let rest = spec_keep_indices(s.drop_last(), keep);
        if keep.contains((s.len() - 1) as usize) {
            rest.push(s.last())
        } else {
            rest
        }
    }
}

/// Whether `v` holds `x`.
fn contains_index(v: &Vec<usize>, x: usize) -> (r: bool)
    ensures
        r == v@.contains(x),
{
    let n: usize = v.len();
    let mut i: usize = 0;
    while i < n
        invariant
            i <= n,
            n == v@.len(),
            forall|j: int| 0 <= j < i ==> v@[j] != x,
        decreases n - i,
    {
        if v[i] == x {
            return true;
        }
        i += 1;
    }
    false
}

/// One schema's records: a bounded in-memory tier and a spill tier that
/// takes the overflow.  The store reads as the concatenation of the two.
pub struct TierStore<T> {
    memory: Vec<T>,
    spill: Vec<T>,
    capacity: usize,
}

impl<T: Copy> TierStore<T> {
    /// Everything the store holds, memory tier first.
    pub closed spec fn view(&self) -> Seq<T> {
        self.memory@ + self.spill@
    }

    /// The memory tier never exceeds its capacity.
    pub closed spec fn wf(&self) -> bool {
        &&& self.memory@.len() <= self.capacity
        &&& self.view().len() < 0x4000_0000
    }

    pub closed spec fn spec_capacity(&self) -> usize {
        self.capacity
    }

    /// An empty store whose memory tier holds at most `capacity` records.
    pub fn new(capacity: usize) -> (r: Self)
        ensures
            r.wf(),
            r.view() =~= Seq::<T>::empty(),
            r.spec_capacity() == capacity,
    {
        TierStore { memory: Vec::new(), spill: Vec::new(), capacity }
    }

    pub fn len(&self) -> (r: usize)
        requires
            self.wf(),
        ensures
            r == self.view().len(),
    {
        self.memory.len() + self.spill.len()
    }

    /// Appends one record, spilling once the memory tier is full.
    pub fn push(&mut self, item: T)
        requires
            old(self).wf(),
            old(self).view().len() + 1 < 0x4000_0000,
        ensures
            final(self).wf(),
            final(self).spec_capacity() == old(self).spec_capacity(),
            final(self).view() =~= old(self).view().push(item),
    {
        if self.memory.len() < self.capacity && self.spill.len() == 0 {
            self.memory.push(item);
        } else {
            self.spill.push(item);
        }
    }

    /// The record at position `index`.
    pub fn get(&self, index: usize) -> (r: T)
        requires
            self.wf(),
            index < self.view().len(),
        ensures
            r == self.view()[index as int],
    {
        if index < self.memory.len() {
            self.memory[index]
        } else {
            self.spill[index - self.memory.len()]
        }
    }

    /// Overwrites the record at position `index`.
    pub fn set(&mut self, index: usize, item: T)
        requires
            old(self).wf(),
            index < old(self).view().len(),
        ensures
            final(self).wf(),
            final(self).spec_capacity() == old(self).spec_capacity(),
            final(self).view() =~= old(self).view().update(index as int, item),
    {
        if index < self.memory.len() {
            self.memory.set(index, item);
        } else {
            let k: usize = index - self.memory.len();
            self.spill.set(k, item);
        }
    }

    /// Drops everything.
    pub fn clear(&mut self)
        ensures
            final(self).wf(),
            final(self).spec_capacity() == old(self).spec_capacity(),
            final(self).view() =~= Seq::<T>::empty(),
    {
        self.memory.clear();
        self.spill.clear();
    }

    /// Replaces the contents with `items`, splitting at the memory
    /// capacity.
    pub fn replace_all(&mut self, items: Vec<T>)
        requires
            old(self).wf(),
            items@.len() < 0x4000_0000,
        ensures
            final(self).wf(),
            final(self).spec_capacity() == old(self).spec_capacity(),
            final(self).view() =~= items@,
    {
        self.clear();
        let n: usize = items.len();
        let mut i: usize = 0;
        while i < n
            invariant
                i <= n,
                n == items@.len(),
                n < 0x4000_0000,
                self.wf(),
                self.spec_capacity() == old(self).spec_capacity(),
                self.view() =~= items@.take(i as int),
            decreases n - i,
        {
            proof {
                assert(items@.take(i + 1) =~= items@.take(i as int).push(items@[i as int]));
            }
            self.push(items[i]);
            i += 1;
        }
        proof {
            assert(items@.take(n as int) =~= items@);
        }
    }

    /// The records at positions `start .. start + size`, clamped to the
    /// store.
    pub fn get_range(&self, start: usize, size: usize) -> (r: Vec<T>)
        requires
            self.wf(),
        ensures
            r@ =~= if start as int <= self.view().len() {
                self.view().subrange(
                    start as int,
                    if start + size <= self.view().len() {
                        start + size
                    } else {
                        self.view().len() as int
                    },
                )
            } else {
                Seq::<T>::empty()
            },
    {
        let total: usize = self.len();
        if start >= total {
            return Vec::new();
        }
        let end: usize = if size <= total - start {
            start + size
        } else {
            total
        };
        let mut r: Vec<T> = Vec::new();
        let mut i: usize = start;
        while i < end
            invariant
                start <= i <= end,
                end <= self.view().len(),
                self.wf(),
                r@ =~= self.view().subrange(start as int, i as int),
            decreases end - i,
        {
            proof {
                assert(self.view().subrange(start as int, i + 1) =~= self.view().subrange(
                    start as int,
                    i as int,
                ).push(self.view()[i as int]));
            }
            r.push(self.get(i));
            i += 1;
        }
        r
    }

    /// Everything the store holds, as one vector.
    pub fn get_all(&self) -> (r: Vec<T>)
        requires
            self.wf(),
        ensures
            r@ =~= self.view(),
    {
        let n: usize = self.len();
        let r = self.get_range(0, n);
        proof {
            assert(self.view().subrange(0, self.view().len() as int) =~= self.view());
        }
        r
    }

    /// Removes the record at position `index`, shifting later records
    /// down.
    pub fn remove(&mut self, index: usize)
        requires
            old(self).wf(),
            index < old(self).view().len(),
        ensures
            final(self).wf(),
            final(self).spec_capacity() == old(self).spec_capacity(),
            final(self).view() =~= old(self).view().remove(index as int),
    {
        if index < self.memory.len() {
            self.memory.remove(index);
            proof {
                assert(self.view() =~= old(self).view().remove(index as int));
            }
        } else {
            let k: usize = index - self.memory.len();
            self.spill.remove(k);
            proof {
                assert(self.view() =~= old(self).view().remove(index as int));
            }
        }
    }

    /// Removes every listed position at once; positions beyond the store
    /// and duplicates are ignored.
    pub fn remove_batch(&mut self, indices: &Vec<usize>)
        requires
            old(self).wf(),
        ensures
            final(self).wf(),
            final(self).spec_capacity() == old(self).spec_capacity(),
            final(self).view() =~= spec_remove_indices(old(self).view(), indices@),
    {
        let ghost v0 = self.view();
        let n: usize = self.len();
        let mut kept: Vec<T> = Vec::new();
        let mut i: usize = 0;
        proof {
            lemma_remove_indices_take(v0, indices@, 0);
            assert(v0.take(0) =~= Seq::<T>::empty());
        }
        while i < n
            invariant
                i <= n,
                n == v0.len(),
                self.wf(),
                v0 == self.view(),
                kept@.len() <= i,
                kept@ =~= spec_remove_indices(v0.take(i as int), indices@),
            decreases n - i,
        {
            proof {
                assert(v0.take(i + 1).drop_last() =~= v0.take(i as int));
                assert(v0.take(i + 1).last() == v0[i as int]);
                assert(v0.take(i + 1).len() == i + 1);
            }
            if !contains_index(indices, i) {
                kept.push(self.get(i));
            }
            i += 1;
        }
        proof {
            assert(v0.take(n as int) =~= v0);
        }
        self.replace_all(kept);
    }

    /// Keeps only the listed positions, in store order; everything else is
    /// removed.
    pub fn keep_batch(&mut self, indices: &Vec<usize>)
        requires
            old(self).wf(),
        ensures
            final(self).wf(),
            final(self).spec_capacity() == old(self).spec_capacity(),
            final(self).view() =~= spec_keep_indices(old(self).view(), indices@),
    {
        let ghost v0 = self.view();
        let n: usize = self.len();
        let mut kept: Vec<T> = Vec::new();
        let mut i: usize = 0;
        proof {
            assert(v0.take(0) =~= Seq::<T>::empty());
        }
        while i < n
            invariant
                i <= n,
                n == v0.len(),
                self.wf(),
                v0 == self.view(),
                kept@.len() <= i,
                kept@ =~= spec_keep_indices(v0.take(i as int), indices@),
            decreases n - i,
        {
            proof {
                assert(v0.take(i + 1).drop_last() =~= v0.take(i as int));
                assert(v0.take(i + 1).last() == v0[i as int]);
                assert(v0.take(i + 1).len() == i + 1);
            }
            if contains_index(indices, i) {
                kept.push(self.get(i));
            }
            i += 1;
        }
        proof {
            assert(v0.take(n as int) =~= v0);
        }
        self.replace_all(kept);
    }
}

/// Removing nothing from an empty front keeps it empty.
proof fn lemma_remove_indices_take<T>(s: Seq<T>, kill: Seq<usize>, i: int)
    ensures
        spec_remove_indices(s.take(0), kill) =~= Seq::<T>::empty(),
{
    assert(s.take(0).len() == 0);
}

/// The result store: one schema at a time over two two-tier containers.
///
/// Every record it returns carries the schema of the current mode; the
/// other schema's container is empty whenever the store is well formed.
pub struct SearchResultManager {
    mode: SearchResultMode,
    exact: TierStore<SearchResultItem>,
    fuzzy: TierStore<FuzzySearchResultItem>,
}

impl SearchResultManager {
    pub closed spec fn spec_mode(&self) -> SearchResultMode {
        self.mode
    }

    pub closed spec fn exact_view(&self) -> Seq<SearchResultItem> {
        self.exact.view()
    }

    pub closed spec fn fuzzy_view(&self) -> Seq<FuzzySearchResultItem> {
        self.fuzzy.view()
    }

    /// Mode coherence: only the current schema's container holds records.
    pub closed spec fn wf(&self) -> bool {
        &&& self.exact.wf()
        &&& self.fuzzy.wf()
        &&& self.mode == SearchResultMode::Exact ==> self.fuzzy.view().len() == 0
        &&& self.mode == SearchResultMode::Fuzzy ==> self.exact.view().len() == 0
    }

    /// A well-formed store holds records of one schema only: in exact
    /// mode no fuzzy record exists, in fuzzy mode no exact record.
    pub proof fn lemma_mode_coherence(&self)
        requires
            self.wf(),
        ensures
            self.spec_mode() == SearchResultMode::Exact ==> self.fuzzy_view().len() == 0,
            self.spec_mode() == SearchResultMode::Fuzzy ==> self.exact_view().len() == 0,
    {
    }

    /// An empty exact-mode store whose memory tiers are sized from the
    /// byte budget and the packed record widths.
    pub fn new(memory_buffer_size: usize) -> (r: Self)
        ensures
            r.wf(),
            r.spec_mode() == SearchResultMode::Exact,
            r.exact_view() =~= Seq::<SearchResultItem>::empty(),
            r.fuzzy_view() =~= Seq::<FuzzySearchResultItem>::empty(),
    {
        SearchResultManager {
            mode: SearchResultMode::Exact,
            exact: TierStore::new(memory_buffer_size / 16),
            fuzzy: TierStore::new(memory_buffer_size / 17),
        }
    }

    pub fn get_mode(&self) -> (r: SearchResultMode)
        ensures
            r == self.spec_mode(),
    {
        self.mode
    }

    /// Switches the schema, clearing all contents.
    pub fn set_mode(&mut self, mode: SearchResultMode)
        requires
            old(self).wf(),
        ensures
            final(self).wf(),
            final(self).spec_mode() == mode,
            final(self).exact_view() =~= Seq::<SearchResultItem>::empty(),
            final(self).fuzzy_view() =~= Seq::<FuzzySearchResultItem>::empty(),
    {
        self.exact.clear();
        self.fuzzy.clear();
        self.mode = mode;
    }

    /// Drops all records without changing the schema.
    pub fn clear(&mut self)
        requires
            old(self).wf(),
        ensures
            final(self).wf(),
            final(self).spec_mode() == old(self).spec_mode(),
            final(self).exact_view() =~= Seq::<SearchResultItem>::empty(),
            final(self).fuzzy_view() =~= Seq::<FuzzySearchResultItem>::empty(),
    {
        self.exact.clear();
        self.fuzzy.clear();
    }

    /// Number of records of the current schema.
    pub fn total_count(&self) -> (r: usize)
        requires
            self.wf(),
        ensures
            self.spec_mode() == SearchResultMode::Exact ==> r == self.exact_view().len(),
            self.spec_mode() == SearchResultMode::Fuzzy ==> r == self.fuzzy_view().len(),
    {
        match self.mode {
            SearchResultMode::Exact => self.exact.len(),
            SearchResultMode::Fuzzy => self.fuzzy.len(),
        }
    }

    /// Appends one exact record.
    pub fn add_result(&mut self, item: SearchResultItem)
        requires
            old(self).wf(),
            old(self).spec_mode() == SearchResultMode::Exact,
            old(self).exact_view().len() + 1 < 0x4000_0000,
        ensures
            final(self).wf(),
            final(self).spec_mode() == SearchResultMode::Exact,
            final(self).exact_view() =~= old(self).exact_view().push(item),
            final(self).fuzzy_view() =~= old(self).fuzzy_view(),
    {
        self.exact.push(item);
    }

    /// Appends a batch of exact records in order.
    pub fn add_results_batch(&mut self, items: Vec<SearchResultItem>)
        requires
            old(self).wf(),
            old(self).spec_mode() == SearchResultMode::Exact,
            old(self).exact_view().len() + items@.len() < 0x4000_0000,
        ensures
            final(self).wf(),
            final(self).spec_mode() == SearchResultMode::Exact,
            final(self).exact_view() =~= old(self).exact_view() + items@,
            final(self).fuzzy_view() =~= old(self).fuzzy_view(),
    {
        let n: usize = items.len();
        let mut i: usize = 0;
        while i < n
            invariant
                i <= n,
                n == items@.len(),
                self.wf(),
                self.spec_mode() == SearchResultMode::Exact,
                old(self).exact_view().len() + n < 0x4000_0000,
                self.exact_view() =~= old(self).exact_view() + items@.take(i as int),
                self.fuzzy_view() =~= old(self).fuzzy_view(),
            decreases n - i,
        {
            proof {
                assert((old(self).exact_view() + items@.take(i as int)).push(items@[i as int])
                    =~= old(self).exact_view() + items@.take(i + 1));
            }
            self.exact.push(items[i]);
            i += 1;
        }
        proof {
            assert(items@.take(n as int) =~= items@);
        }
    }

    /// Appends a batch of fuzzy records in order.
    pub fn add_fuzzy_results_batch(&mut self, items: Vec<FuzzySearchResultItem>)
        requires
            old(self).wf(),
            old(self).spec_mode() == SearchResultMode::Fuzzy,
            old(self).fuzzy_view().len() + items@.len() < 0x4000_0000,
        ensures
            final(self).wf(),
            final(self).spec_mode() == SearchResultMode::Fuzzy,
            final(self).fuzzy_view() =~= old(self).fuzzy_view() + items@,
            final(self).exact_view() =~= old(self).exact_view(),
    {
        let n: usize = items.len();
        let mut i: usize = 0;
        while i < n
            invariant
                i <= n,
                n == items@.len(),
                self.wf(),
                self.spec_mode() == SearchResultMode::Fuzzy,
                old(self).fuzzy_view().len() + n < 0x4000_0000,
                self.fuzzy_view() =~= old(self).fuzzy_view() + items@.take(i as int),
                self.exact_view() =~= old(self).exact_view(),
            decreases n - i,
        {
            proof {
                assert((old(self).fuzzy_view() + items@.take(i as int)).push(items@[i as int])
                    =~= old(self).fuzzy_view() + items@.take(i + 1));
            }
            self.fuzzy.push(items[i]);
            i += 1;
        }
        proof {
            assert(items@.take(n as int) =~= items@);
        }
    }

    /// Replaces the whole fuzzy record set at once.
    pub fn replace_all_fuzzy_results(&mut self, items: Vec<FuzzySearchResultItem>)
        requires
            old(self).wf(),
            old(self).spec_mode() == SearchResultMode::Fuzzy,
            items@.len() < 0x4000_0000,
        ensures
            final(self).wf(),
            final(self).spec_mode() == SearchResultMode::Fuzzy,
            final(self).fuzzy_view() =~= items@,
            final(self).exact_view() =~= old(self).exact_view(),
    {
        self.fuzzy.replace_all(items);
    }

    /// A page of exact records, clamped to the store.
    pub fn get_results(&self, start: usize, size: usize) -> (r: Vec<SearchResultItem>)
        requires
            self.wf(),
            self.spec_mode() == SearchResultMode::Exact,
        ensures
            r@ =~= if start as int <= self.exact_view().len() {
                self.exact_view().subrange(
                    start as int,
                    if start + size <= self.exact_view().len() {
                        start + size
                    } else {
                        self.exact_view().len() as int
                    },
                )
            } else {
                Seq::<SearchResultItem>::empty()
            },
    {
        self.exact.get_range(start, size)
    }

    /// A page of fuzzy records, clamped to the store.
    pub fn get_fuzzy_results(&self, start: usize, size: usize) -> (r: Vec<FuzzySearchResultItem>)
        requires
            self.wf(),
            self.spec_mode() == SearchResultMode::Fuzzy,
        ensures
            r@ =~= if start as int <= self.fuzzy_view().len() {
                self.fuzzy_view().subrange(
                    start as int,
                    if start + size <= self.fuzzy_view().len() {
                        start + size
                    } else {
                        self.fuzzy_view().len() as int
                    },
                )
            } else {
                Seq::<FuzzySearchResultItem>::empty()
            },
    {
        self.fuzzy.get_range(start, size)
    }

    /// Every exact record, in store order.
    pub fn get_all_exact_results(&self) -> (r: Vec<SearchResultItem>)
        requires
            self.wf(),
        ensures
            r@ =~= self.exact_view(),
    {
        self.exact.get_all()
    }

    /// Every fuzzy record, in store order.
    pub fn get_all_fuzzy_results(&self) -> (r: Vec<FuzzySearchResultItem>)
        requires
            self.wf(),
        ensures
            r@ =~= self.fuzzy_view(),
    {
        self.fuzzy.get_all()
    }

    /// Removes the record of the current schema at position `index`.
    pub fn remove_result(&mut self, index: usize) -> (r: Result<(), ()>)
        requires
            old(self).wf(),
        ensures
            final(self).wf(),
            final(self).spec_mode() == old(self).spec_mode(),
            old(self).spec_mode() == SearchResultMode::Exact ==> {
                &&& (r is Ok <==> index < old(self).exact_view().len())
                &&& (r is Ok ==> final(self).exact_view() =~= old(self).exact_view().remove(
                    index as int,
                ))
                &&& (r is Err ==> final(self).exact_view() =~= old(self).exact_view())
            },
            old(self).spec_mode() == SearchResultMode::Fuzzy ==> {
                &&& (r is Ok <==> index < old(self).fuzzy_view().len())
                &&& (r is Ok ==> final(self).fuzzy_view() =~= old(self).fuzzy_view().remove(
                    index as int,
                ))
                &&& (r is Err ==> final(self).fuzzy_view() =~= old(self).fuzzy_view())
            },
            final(self).exact_view().len() <= old(self).exact_view().len(),
            final(self).fuzzy_view().len() <= old(self).fuzzy_view().len(),
            old(self).spec_mode() == SearchResultMode::Exact ==> final(self).fuzzy_view() =~= old(
                self,
            ).fuzzy_view(),
            old(self).spec_mode() == SearchResultMode::Fuzzy ==> final(self).exact_view() =~= old(
                self,
            ).exact_view(),
    {
        match self.mode {
            SearchResultMode::Exact => {
                if index < self.exact.len() {
                    self.exact.remove(index);
                    Ok(())
                } else {
                    Err(())
                }
            },
            SearchResultMode::Fuzzy => {
                if index < self.fuzzy.len() {
                    self.fuzzy.remove(index);
                    Ok(())
                } else {
                    Err(())
                }
            },
        }
    }

    /// Removes every listed position of the current schema at once.
    pub fn remove_results_batch(&mut self, indices: Vec<usize>)
        requires
            old(self).wf(),
        ensures
            final(self).wf(),
            final(self).spec_mode() == old(self).spec_mode(),
            old(self).spec_mode() == SearchResultMode::Exact ==> final(self).exact_view()
                =~= spec_remove_indices(old(self).exact_view(), indices@),
            old(self).spec_mode() == SearchResultMode::Fuzzy ==> final(self).fuzzy_view()
                =~= spec_remove_indices(old(self).fuzzy_view(), indices@),
    {
        match self.mode {
            SearchResultMode::Exact => self.exact.remove_batch(&indices),
            SearchResultMode::Fuzzy => self.fuzzy.remove_batch(&indices),
        }
    }

    /// Keeps only the listed positions of the current schema, in order.
    pub fn keep_only_results(&mut self, keep_indices: Vec<usize>)
        requires
            old(self).wf(),
        ensures
            final(self).wf(),
            final(self).spec_mode() == old(self).spec_mode(),
            old(self).spec_mode() == SearchResultMode::Exact ==> final(self).exact_view()
                =~= spec_keep_indices(old(self).exact_view(), keep_indices@),
            old(self).spec_mode() == SearchResultMode::Fuzzy ==> final(self).fuzzy_view()
                =~= spec_keep_indices(old(self).fuzzy_view(), keep_indices@),
    {
        match self.mode {
            SearchResultMode::Exact => self.exact.keep_batch(&keep_indices),
            SearchResultMode::Fuzzy => self.fuzzy.keep_batch(&keep_indices),
        }
    }
}

} // verus!
