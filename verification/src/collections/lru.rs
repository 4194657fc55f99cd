//! A bounded cache that keeps its entries by recency of use.

use std::collections::VecDeque;
use vstd::prelude::*;

verus! {

/// What an [`LruCache`] does with an entry that leaves it.
pub(crate) trait Evict<V> {
    /// Whether the action can be run on `item`.
    spec fn accepts(&self, item: V) -> bool;

    /// Takes ownership of the entry that was removed.
    fn evict(&self, item: V)
        requires
            self.accepts(item),
        opens_invariants none
        no_unwind
    {
    }
}

/// The default action: the entry is released.
pub(crate) struct Release;

impl<V> Evict<V> for Release {
    closed spec fn accepts(&self, item: V) -> bool {
        true
    }
}

/// A caller-supplied action.
pub(crate) struct Handler<F> {
    action: F,
}

/// `Fn::call` of std, on the eviction handler. Nothing is claimed of what the handler does
/// with the entry. It is trusted to return: a handler must not panic, since the cache also
/// runs it while it is being dropped.
#[verifier::external_body]
fn run_handler<V, F: Fn(V)>(action: &F, item: V)
    requires
        call_requires(*action, (item,)),
    opens_invariants none
    no_unwind
{
    action(item)
}

impl<V, F: Fn(V)> Evict<V> for Handler<F> {
    closed spec fn accepts(&self, item: V) -> bool {
        call_requires(self.action, (item,))
    }

    fn evict(&self, item: V) {
        run_handler(&self.action, item)
    }
}

/// `VecDeque::pop_back` of std: takes the last element off, `None` when there is none.
/// It never panics, which a cache relies on where it evicts.
#[verifier::external_body]
fn take_back<V>(data: &mut VecDeque<V>) -> (value: Option<V>)
    ensures
        match value {
            Some(x) => old(data)@.len() > 0 && x == old(data)@.last() && final(data)@
                == old(data)@.drop_last(),
            None => old(data)@.len() == 0 && final(data)@ == old(data)@,
        },
    opens_invariants none
    no_unwind
{
    data.pop_back()
}

/// Whether `predicate` rejects each of the first `n` entries of `entries`.
pub open spec fn none_accepted<V, P: FnMut(&V) -> bool>(entries: Seq<V>, predicate: P, n: int) -> bool {
    forall|j: int| 0 <= j < n && j < entries.len() ==> call_ensures(predicate, (&#[trigger] entries[j],), false)
}

/// Whether the entry at `i` is the first of `entries` that `predicate` accepts.
pub open spec fn first_accepted<V, P: FnMut(&V) -> bool>(entries: Seq<V>, predicate: P, i: int) -> bool {
    &&& 0 <= i < entries.len()
    &&& call_ensures(predicate, (&entries[i],), true)
    &&& none_accepted(entries, predicate, i)
}

/// The number of entries that a cache of the given capacity never exceeds: its capacity,
/// and one entry where the capacity is zero.
pub open spec fn bound_of(capacity: usize) -> int {
    if capacity == 0 {
        1
    } else {
        capacity as int
    }
}

/// The entries after `item` was inserted into a cache of the given capacity: `item` in
/// front, and the one at the back gone where there were `capacity` entries or more.
pub open spec fn inserted<V>(entries: Seq<V>, capacity: usize, item: V) -> Seq<V> {
    if entries.len() > 0 && entries.len() >= capacity {
        seq![item] + entries.drop_last()
    } else {
        seq![item] + entries
    }
}

/// The entries after `items` were inserted one after the other.
pub open spec fn inserted_all<V>(entries: Seq<V>, capacity: usize, items: Seq<V>) -> Seq<V>
    decreases items.len(),
{
    if items.len() == 0 {
        entries
    } else {
        inserted(inserted_all(entries, capacity, items.drop_last()), capacity, items.last())
    }
}

/// However many entries are inserted into an empty cache, it never holds more than its
/// bound: it holds them all until there are that many, and that many from then on.
pub proof fn lemma_inserts_are_bounded<V>(capacity: usize, items: Seq<V>)
    ensures
        inserted_all(Seq::empty(), capacity, items).len() == if items.len() < bound_of(capacity) {
            items.len() as int
        } else {
            bound_of(capacity)
        },
    decreases items.len(),
{
    if items.len() > 0 {
        lemma_inserts_are_bounded(capacity, items.drop_last());
    }
}

/// The entries after the one at `i` has been made the most recently used.
pub open spec fn promoted<V>(entries: Seq<V>, i: int) -> Seq<V> {
    seq![entries[i]] + entries.remove(i)
}

/// A cache of at most `capacity()` entries, most recently used first. When a new entry
/// finds it full, the least recently used entry leaves and is handed to the eviction
/// handler; so is every entry that is still held when the cache is dropped.
#[verifier::reject_recursive_types(V)]
pub struct LruCache<V> {
    max_size: usize,
    data: VecDeque<V>,
    on_evict: Box<dyn Evict<V>>,
    handed_over: Ghost<Seq<V>>,
}

impl<V> View for LruCache<V> {
    type V = Seq<V>;

    /// The entries, most recently used first.
    closed spec fn view(&self) -> Seq<V> {
        self.data@
    }
}

impl<V> LruCache<V> {
    /// The size that the cache was made with.
    pub closed spec fn capacity(&self) -> usize {
        self.max_size
    }

    /// The entries that were handed to the eviction handler so far, oldest first.
    pub closed spec fn evicted(&self) -> Seq<V> {
        self.handed_over@
    }

    /// The number of entries that the cache never exceeds: its capacity, and one entry
    /// where the capacity is zero.
    pub open spec fn bound(&self) -> int {
        bound_of(self.capacity())
    }

    /// Every entry that is or was in the cache, once: those that were evicted, and
    /// behind them those that are held, the least recently used first.
    pub open spec fn lifetime(&self) -> Seq<V> {
        self.evicted() + self@.reverse()
    }

    /// Whether the next insertion evicts an entry: the cache is not empty and holds
    /// `capacity()` entries or more.
    pub open spec fn is_full(&self) -> bool {
        self@.len() > 0 && self@.len() >= self.capacity()
    }

    #[verifier::type_invariant]
    spec fn bounded(self) -> bool {
        &&& self.data@.len() <= self.bound()
        &&& forall|v: V| self.on_evict.accepts(v)
    }

    /// An empty cache of the given size, which releases what it evicts.
    pub fn new(size: usize) -> (cache: Self)
        ensures
            cache@ == Seq::<V>::empty(),
            cache.capacity() == size,
            cache.evicted() == Seq::<V>::empty(),
    {
        LruCache {
            max_size: size,
            data: VecDeque::with_capacity(size),
            on_evict: Box::new(Release),
            handed_over: Ghost(Seq::empty()),
        }
    }

    /// An empty cache of the given size, which hands what it evicts to `on_evict`. The
    /// handler must not panic.
    pub fn with_evict<F: Fn(V) + 'static>(size: usize, on_evict: F) -> (cache: Self)
        requires
            forall|v: V| call_requires(on_evict, (v,)),
        ensures
            cache@ == Seq::<V>::empty(),
            cache.capacity() == size,
            cache.evicted() == Seq::<V>::empty(),
    {
        LruCache {
            max_size: size,
            data: VecDeque::with_capacity(size),
            on_evict: Box::new(Handler { action: on_evict }),
            handed_over: Ghost(Seq::empty()),
        }
    }

    /// Looks for the first entry, from the most recently used on, that `predicate` accepts.
    /// An entry that is found becomes the most recently used one; where none is found,
    /// the order stays as it was. Nothing is evicted.
    pub fn find<P>(&mut self, mut predicate: P) -> (found: Option<&V>) where P: FnMut(&V) -> bool
        requires
            forall|v: &V| call_requires(predicate, (v,)),
        ensures
            final(self).capacity() == old(self).capacity(),
            final(self).evicted() == old(self).evicted(),
            match found {
                Some(v) => exists|i: int|
                    {
                        &&& #[trigger] first_accepted(old(self)@, predicate, i)
                        &&& *v == old(self)@[i]
                        &&& final(self)@ == promoted(old(self)@, i)
                    },
                None => {
                    &&& none_accepted(old(self)@, predicate, old(self)@.len() as int)
                    &&& final(self)@ == old(self)@
                },
            },
    {
        proof {
            use_type_invariant(&*self);
        }
        broadcast use vstd::function::group_function_axioms;

        let ghost given = predicate;
        let n: usize = self.data.len();
        let mut position: usize = 0;
        let mut found: bool = false;
        while position < n && !found
            invariant
                position <= n,
                n == self@.len(),
                *self == *old(self),
                predicate == given,
                forall|v: &V| call_requires(predicate, (v,)),
                none_accepted(self@, predicate, position as int),
                found ==> first_accepted(self@, predicate, position as int),
            decreases n - position + (if found { 0int } else { 1int }),
        {
            if predicate(&self.data[position]) {
                found = true;
            } else {
                position += 1;
            }
        }
        if found {
            self.promote(position);
            assert(first_accepted(old(self)@, given, position as int));
            Some(&self.data[0])
        } else {
            None
        }
    }

    /// Makes the entry at `position` the most recently used one.
    fn promote(&mut self, position: usize)
        requires
            position < old(self)@.len(),
        ensures
            final(self)@ == promoted(old(self)@, position as int),
            final(self).capacity() == old(self).capacity(),
            final(self).evicted() == old(self).evicted(),
    {
        proof {
            use_type_invariant(&*self);
        }
        let mut data = self.take_entries();
        match data.remove(position) {
            Some(item) => {
                data.push_front(item);
            },
            None => {},
        }
        self.put_entries(data);
    }

    /// Puts `item` in front, as the most recently used entry. A cache that holds
    /// `capacity()` entries or more first loses its least recently used entry, which is
    /// handed to the eviction handler. Entries are not compared: the same value may be
    /// held twice.
    pub fn insert(&mut self, item: V)
        ensures
            final(self).capacity() == old(self).capacity(),
            final(self)@ == inserted(old(self)@, old(self).capacity(), item),
            final(self)@.len() <= final(self).bound(),
            final(self).evicted() == if old(self).is_full() {
                old(self).evicted().push(old(self)@.last())
            } else {
                old(self).evicted()
            },
            final(self).lifetime() == old(self).lifetime().push(item),
    {
        proof {
            use_type_invariant(&*self);
            lemma_lifetime_grows(old(self)@, old(self).evicted(), item);
        }
        if self.data.len() >= self.max_size {
            match take_back(&mut self.data) {
                Some(last) => {
                    self.evict(last);
                },
                None => {},
            }
        }
        let mut data = self.take_entries();
        data.push_front(item);
        self.put_entries(data);
    }

    /// Moves the entries out, which leaves the cache empty until they are put back.
    fn take_entries(&mut self) -> (data: VecDeque<V>)
        ensures
            data@ == old(self)@,
            final(self)@ == Seq::<V>::empty(),
            final(self).capacity() == old(self).capacity(),
            final(self).evicted() == old(self).evicted(),
    {
        proof {
            use_type_invariant(&*self);
        }
        let mut data = VecDeque::new();
        core::mem::swap(&mut self.data, &mut data);
        data
    }

    /// Puts entries back into the cache.
    fn put_entries(&mut self, data: VecDeque<V>)
        requires
            data@.len() <= old(self).bound(),
        ensures
            final(self)@ == data@,
            final(self).capacity() == old(self).capacity(),
            final(self).evicted() == old(self).evicted(),
    {
        proof {
            use_type_invariant(&*self);
        }
        self.data = data;
    }

    /// Hands `item`, which has left the cache, to the eviction handler.
    fn evict(&mut self, item: V)
        ensures
            final(self)@ == old(self)@,
            final(self).capacity() == old(self).capacity(),
            final(self).evicted() == old(self).evicted().push(item),
        opens_invariants none
        no_unwind
    {
        proof {
            use_type_invariant(&*self);
        }
        self.handed_over = Ghost(self.handed_over@.push(item));
        self.on_evict.evict(item);
    }

    /// The entries, most recently used first.
    pub fn entries(&self) -> (entries: Vec<&V>)
        ensures
            entries@.len() == self@.len(),
            forall|i: int| 0 <= i < self@.len() ==> *entries@[i] == self@[i],
    {
        let mut entries: Vec<&V> = Vec::new();
        let n: usize = self.data.len();
        let mut i: usize = 0;
        while i < n
            invariant
                i <= n,
                n == self.data@.len(),
                entries@.len() == i,
                forall|j: int| 0 <= j < i ==> *entries@[j] == self.data@[j],
            decreases n - i,
        {
            entries.push(&self.data[i]);
            i += 1;
        }
        entries
    }

    /// The number of entries.
    pub fn len(&self) -> (n: usize)
        ensures
            n == self@.len(),
            n <= self.bound(),
    {
        proof {
            use_type_invariant(self);
        }
        self.data.len()
    }

    /// Whether the cache holds no entry.
    pub fn is_empty(&self) -> (b: bool)
        ensures
            b == (self@.len() == 0),
    {
        self.data.len() == 0
    }
}

/// Whether an entry is put in front of a cache that is full, after its last entry was
/// evicted, or in front of one that is not: each entry that is or was in the cache is
/// still there or evicted, once, and the new one comes last.
proof fn lemma_lifetime_grows<V>(entries: Seq<V>, evicted: Seq<V>, item: V)
    ensures
        entries.len() > 0 ==> evicted.push(entries.last()) + (seq![item]
            + entries.drop_last()).reverse() == (evicted + entries.reverse()).push(item),
        evicted + (seq![item] + entries).reverse() == (evicted + entries.reverse()).push(item),
{
    if entries.len() > 0 {
        assert(evicted.push(entries.last()) + (seq![item] + entries.drop_last()).reverse() =~= (
        evicted + entries.reverse()).push(item));
    }
    assert(evicted + (seq![item] + entries).reverse() =~= (evicted + entries.reverse()).push(
        item,
    ));
}

impl<V> Drop for LruCache<V> {
    /// Evicts every entry that is left, the least recently used first.
    fn drop(&mut self)
        ensures
            final(self)@ == Seq::<V>::empty(),
            final(self).evicted() == old(self).lifetime(),
        opens_invariants none
        no_unwind
    {
        loop
            invariant_except_break
                self.lifetime() == old(self).lifetime(),
            ensures
                self@ == Seq::<V>::empty(),
                self.evicted() == old(self).lifetime(),
            decreases self.data@.len(),
        {
            proof {
                use_type_invariant(&*self);
            }
            let ghost entries = self@;
            let ghost evicted = self.evicted();
            match take_back(&mut self.data) {
                Some(item) => {
                    self.evict(item);
                    assert(self.lifetime() =~= evicted + entries.reverse());
                },
                None => {
                    assert(self@ =~= Seq::<V>::empty());
                    assert(self.lifetime() =~= self.evicted());
                    break ;
                },
            }
        }
    }
}

} // verus!
