//! The memory of recently seen message identifiers.

use lru::{DefaultHasher, LruCache};
use vstd::prelude::*;

verus! {

/// Size, in bytes, of the identifier at the front of every frame.
pub const ID_SIZE: usize = 32;

/// `lru::DefaultHasher`, the hasher that a cache uses unless told otherwise.
#[verifier::external_type_specification]
#[verifier::external_body]
pub struct ExDefaultHasher(DefaultHasher);

/// `lru::LruCache`, a map of bounded size that forgets its least recently used
/// entry.
#[verifier::external_type_specification]
#[verifier::external_body]
#[verifier::reject_recursive_types(K)]
#[verifier::reject_recursive_types(V)]
#[verifier::reject_recursive_types(S)]
pub struct ExLruCache<K, V, S>(LruCache<K, V, S>);

/// The identifiers that a cache holds, the most recently used one first.
pub uninterp spec fn cached_ids(cache: LruCache<[u8; 32], ()>) -> Seq<Seq<u8>>;

/// The number of identifiers that a cache was made to hold.
pub uninterp spec fn cache_capacity(cache: LruCache<[u8; 32], ()>) -> nat;

/// `ids` without `id`.
pub open spec fn without(ids: Seq<Seq<u8>>, id: Seq<u8>) -> Seq<Seq<u8>> {
    if ids.contains(id) {
        ids.remove(ids.index_of(id))
    } else {
        ids
    }
}

/// The first `n` of `ids`, or all of them when there are fewer.
pub open spec fn first(ids: Seq<Seq<u8>>, n: nat) -> Seq<Seq<u8>> {
    if ids.len() <= n {
        ids
    } else {
        ids.take(n as int)
    }
}

/// `ids` with `id` moved, or added, to the front.
pub open spec fn brought_forward(ids: Seq<Seq<u8>>, id: Seq<u8>) -> Seq<Seq<u8>> {
    seq![id] + without(ids, id)
}

/// What a cache of size `capacity` holds once `id` has been used, where it held
/// `ids`: `id` comes to the front, and what no longer fits falls off the end.
pub open spec fn touched(ids: Seq<Seq<u8>>, capacity: nat, id: Seq<u8>) -> Seq<Seq<u8>> {
    first(brought_forward(ids, id), capacity)
}

/// Makes an empty cache.
///
/// Calls `LruCache::new`, on a `NonZeroUsize` of the same value. Trusted: the
/// new cache holds nothing and has the given capacity. The constructor reserves
/// its table at once and panics when the table cannot be addressed; the upper
/// bound leaves that out.
#[verifier::external_body]
fn new_cache(capacity: usize) -> (cache: LruCache<[u8; 32], ()>)
    requires
        0 < capacity <= isize::MAX / 64,
    ensures
        cached_ids(cache) == Seq::<Seq<u8>>::empty(),
        cache_capacity(cache) == capacity,
{
    LruCache::new(std::num::NonZeroUsize::new(capacity).expect("capacity must be non-zero"))
}

/// Whether a cache holds `id`.
///
/// Calls `LruCache::contains`. Trusted: the answer is whether the key is in the
/// cache; the call changes nothing.
#[verifier::external_body]
fn cache_holds(cache: &LruCache<[u8; 32], ()>, id: &[u8; 32]) -> (held: bool)
    ensures
        held == cached_ids(*cache).contains(id@),
{
    cache.contains(id)
}

/// Puts `id` into a cache.
///
/// Calls `LruCache::put`. Trusted: the key becomes the most recently used one,
/// whether or not it was there before; where it was not and the cache is full,
/// the least recently used key leaves; the order of the others and the capacity
/// stay.
#[verifier::external_body]
fn cache_put(cache: &mut LruCache<[u8; 32], ()>, id: [u8; 32])
    ensures
        cached_ids(*final(cache)) == touched(
            cached_ids(*old(cache)),
            cache_capacity(*old(cache)),
            id@,
        ),
        cache_capacity(*final(cache)) == cache_capacity(*old(cache)),
{
    cache.put(id, ());
}

/// The identifiers that a node has seen lately, by which it tells a frame that
/// is new from one that has already come by.
pub struct GossipState {
    seen: LruCache<[u8; 32], ()>,
}

impl GossipState {
    /// The identifiers that are remembered, the most recently seen one first.
    pub closed spec fn seen(&self) -> Seq<Seq<u8>> {
        cached_ids(self.seen)
    }

    /// How many identifiers are remembered at most.
    pub closed spec fn capacity(&self) -> nat {
        cache_capacity(self.seen)
    }

    /// No identifier is remembered twice, and there are never more than fit.
    pub open spec fn wf(&self) -> bool {
        &&& self.capacity() > 0
        &&& self.seen().len() <= self.capacity()
        &&& self.seen().no_duplicates()
    }

    /// Builds a fresh state that remembers up to `dedup_capacity` identifiers.
    pub fn new(dedup_capacity: usize) -> (state: Self)
        requires
            0 < dedup_capacity <= isize::MAX / 64,
        ensures
            state.wf(),
            state.seen() == Seq::<Seq<u8>>::empty(),
            state.capacity() == dedup_capacity,
    {
        GossipState { seen: new_cache(dedup_capacity) }
    }

    /// Returns `true` if `id` is not among the remembered identifiers and
    /// `false` if it is. Either way `id` is then the most recently seen one;
    /// when the memory is full, the least recently seen one is forgotten.
    pub fn check_and_record(&mut self, id: &[u8; ID_SIZE]) -> (fresh: bool)
        requires
            old(self).wf(),
        ensures
            fresh == !old(self).seen().contains(id@),
            final(self).seen() == touched(old(self).seen(), old(self).capacity(), id@),
            final(self).seen().first() == id@,
            final(self).seen().contains(id@),
            final(self).capacity() == old(self).capacity(),
            final(self).wf(),
    {
        let fresh = !cache_holds(&self.seen, id);
        proof {
            lemma_brought_forward(self.seen(), id@);
        }
        cache_put(&mut self.seen, *id);
        assert(self.seen()[0] == id@);
        fresh
    }
}

/// The distinct identifiers of a history of sightings, the one seen last first.
pub open spec fn most_recent_first(history: Seq<Seq<u8>>) -> Seq<Seq<u8>>
    decreases history.len(),
{
    if history.len() == 0 {
        Seq::empty()
    } else {
        brought_forward(most_recent_first(history.drop_last()), history.last())
    }
}

/// What a memory of size `capacity`, empty at first, holds after a history of
/// sightings.
pub open spec fn remembered(history: Seq<Seq<u8>>, capacity: nat) -> Seq<Seq<u8>>
    decreases history.len(),
{
    if history.len() == 0 {
        Seq::empty()
    } else {
        touched(remembered(history.drop_last(), capacity), capacity, history.last())
    }
}

/// Bringing an identifier forward keeps the list free of duplicates, adds
/// nothing but that identifier and loses nothing.
proof fn lemma_brought_forward(ids: Seq<Seq<u8>>, id: Seq<u8>)
    requires
        ids.no_duplicates(),
    ensures
        brought_forward(ids, id).no_duplicates(),
        forall|x: Seq<u8>|
            #[trigger] brought_forward(ids, id).contains(x) <==> x == id || ids.contains(x),
        brought_forward(ids, id).len() == ids.len() + if ids.contains(id) { 0int } else { 1 },
{
    let rest = without(ids, id);
    let all = brought_forward(ids, id);
    let at = ids.index_of(id);
    assert forall|x: Seq<u8>| rest.contains(x) <==> ids.contains(x) && x != id by {
        if rest.contains(x) {
            let i = rest.index_of(x);
            assert(rest[i] == if ids.contains(id) && i >= at { ids[i + 1] } else { ids[i] });
            assert(ids.contains(x));
        }
        if ids.contains(x) && x != id {
            let i = ids.index_of(x);
            assert(rest[if ids.contains(id) && i >= at { i - 1 } else { i }] == x);
        }
    }
    assert forall|x: Seq<u8>| #[trigger] all.contains(x) <==> x == id || ids.contains(x) by {
        if x == id {
            assert(all[0] == x);
        } else if ids.contains(x) {
            assert(all[rest.index_of(x) + 1] == x);
        } else if all.contains(x) {
            assert(rest.contains(all[all.index_of(x)]));
        }
    }
    assert forall|i: int, j: int| 0 <= i < j < all.len() implies all[i] != all[j] by {
        assert(all[j] == rest[j - 1]);
        assert(rest.contains(all[j]));
        if i > 0 {
            assert(all[i] == rest[i - 1]);
        }
    }
}

proof fn lemma_most_recent_first(history: Seq<Seq<u8>>)
    ensures
        most_recent_first(history).no_duplicates(),
        forall|x: Seq<u8>| #[trigger]
            most_recent_first(history).contains(x) <==> history.contains(x),
    decreases history.len(),
{
    if history.len() > 0 {
        let earlier = history.drop_last();
        lemma_most_recent_first(earlier);
        lemma_brought_forward(most_recent_first(earlier), history.last());
        assert forall|x: Seq<u8>| history.contains(x) <==> x == history.last() || earlier.contains(
            x,
        ) by {
            if history.contains(x) && x != history.last() {
                assert(earlier[history.index_of(x)] == x);
            }
            if earlier.contains(x) {
                assert(history[earlier.index_of(x)] == x);
            }
            assert(history[history.len() - 1] == history.last());
        }
    }
}

/// A further sighting never makes the number of distinct identifiers smaller.
pub proof fn more_sightings_more_identifiers(history: Seq<Seq<u8>>, id: Seq<u8>)
    ensures
        most_recent_first(history).len() <= most_recent_first(history.push(id)).len(),
{
    lemma_most_recent_first(history);
    lemma_brought_forward(most_recent_first(history), id);
    assert(history.push(id).drop_last() =~= history);
}

/// What is remembered is exactly the `capacity` identifiers that were seen most
/// recently, in that order: the one that is forgotten is always the least
/// recently seen.
pub proof fn remembers_the_most_recent(history: Seq<Seq<u8>>, capacity: nat)
    requires
        capacity > 0,
    ensures
        remembered(history, capacity) == first(most_recent_first(history), capacity),
    decreases history.len(),
{
    if history.len() > 0 {
        let id = history.last();
        let all = most_recent_first(history.drop_last());
        let held = first(all, capacity);
        remembers_the_most_recent(history.drop_last(), capacity);
        lemma_most_recent_first(history.drop_last());
        if all.len() > capacity {
            let at = all.index_of(id);
            if held.contains(id) {
                let i = held.index_of(id);
                assert(all[i] == id);
                assert(i == at);
            } else if all.contains(id) {
                assert(at >= capacity) by {
                    if at < capacity {
                        assert(held[at] == id);
                    }
                }
            }
            assert(touched(held, capacity, id) =~= touched(all, capacity, id));
        }
    }
}

/// Recording an identifier turns the memory of a history of sightings into that
/// of the history with one more sighting.
pub proof fn one_more_sighting(history: Seq<Seq<u8>>, capacity: nat, id: Seq<u8>)
    ensures
        remembered(history.push(id), capacity) == touched(
            remembered(history, capacity),
            capacity,
            id,
        ),
{
    assert(history.push(id).drop_last() =~= history);
}

/// An identifier that was just recorded is a duplicate the next time.
pub proof fn recorded_is_duplicate(ids: Seq<Seq<u8>>, capacity: nat, id: Seq<u8>)
    requires
        capacity > 0,
    ensures
        touched(ids, capacity, id).contains(id),
{
    assert(touched(ids, capacity, id)[0] == id);
}

/// While no more distinct identifiers have been seen than fit, an identifier
/// passes for new exactly at its first sighting.
pub proof fn nothing_is_forgotten_early(history: Seq<Seq<u8>>, capacity: nat, id: Seq<u8>)
    requires
        capacity > 0,
        most_recent_first(history).len() <= capacity,
    ensures
        remembered(history, capacity).contains(id) <==> history.contains(id),
{
    remembers_the_most_recent(history, capacity);
    lemma_most_recent_first(history);
}

/// After `id` has been seen, only identifiers that were seen later stand before
/// it in the order of recency.
proof fn lemma_place_in_recency(history: Seq<Seq<u8>>, later: Seq<Seq<u8>>, id: Seq<u8>) -> (at: int)
    requires
        history.len() > 0,
        history.last() == id,
    ensures
        0 <= at < most_recent_first(history + later).len(),
        most_recent_first(history + later)[at] == id,
        forall|j: int|
            0 <= j < at ==> later.contains(#[trigger] most_recent_first(history + later)[j]),
    decreases later.len(),
{
    let whole = history + later;
    if later.len() == 0 {
        assert(whole =~= history);
        0
    } else {
        let y = later.last();
        let earlier = later.drop_last();
        assert(whole.drop_last() =~= history + earlier);
        let before = most_recent_first(history + earlier);
        let after = most_recent_first(whole);
        let at = lemma_place_in_recency(history, earlier, id);
        lemma_most_recent_first(history + earlier);
        assert(after == seq![y] + without(before, y));
        assert forall|x: Seq<u8>| earlier.contains(x) || x == y implies later.contains(x) by {
            if earlier.contains(x) {
                assert(later[earlier.index_of(x)] == x);
            } else {
                assert(later[later.len() - 1] == x);
            }
        }
        let gone = before.index_of(y);
        let now = if y == id {
            0
        } else if before.contains(y) && gone < at {
            at
        } else {
            at + 1
        };
        assert forall|j: int| 0 <= j < now implies later.contains(#[trigger] after[j]) by {
            if j > 0 {
                let from = if before.contains(y) && j - 1 >= gone { j } else { j - 1 };
                assert(after[j] == before[from]);
                assert(from < at);
            }
        }
        now
    }
}

/// An identifier stays a duplicate until `capacity` other identifiers have been
/// seen after it.
pub proof fn duplicate_until_crowded_out(
    history: Seq<Seq<u8>>,
    id: Seq<u8>,
    later: Seq<Seq<u8>>,
    capacity: nat,
)
    requires
        most_recent_first(later).len() < capacity,
    ensures
        remembered(history.push(id) + later, capacity).contains(id),
{
    let whole = history.push(id) + later;
    let all = most_recent_first(whole);
    let others = most_recent_first(later);
    remembers_the_most_recent(whole, capacity);
    lemma_most_recent_first(whole);
    lemma_most_recent_first(later);
    let at = lemma_place_in_recency(history.push(id), later, id);
    let ahead = all.take(at);
    assert(ahead.no_duplicates());
    ahead.unique_seq_to_set();
    others.unique_seq_to_set();
    assert(ahead.to_set().subset_of(others.to_set())) by {
        assert forall|x: Seq<u8>| ahead.to_set().contains(x) implies others.to_set().contains(
            x,
        ) by {
            let j = ahead.index_of(x);
            assert(all[j] == x);
        }
    }
    vstd::set_lib::lemma_len_subset(ahead.to_set(), others.to_set());
    assert(first(all, capacity)[at] == id);
}

/// The identifiers that were seen last stand at the front in the order of recency,
/// as they would if nothing had been seen before.
proof fn lemma_later_ones_first(history: Seq<Seq<u8>>, later: Seq<Seq<u8>>)
    ensures
        most_recent_first(later).len() <= most_recent_first(history + later).len(),
        most_recent_first(history + later).take(most_recent_first(later).len() as int)
            == most_recent_first(later),
    decreases later.len(),
{
    let whole = history + later;
    if later.len() == 0 {
        assert(most_recent_first(whole).take(0) =~= Seq::<Seq<u8>>::empty());
    } else {
        let y = later.last();
        let earlier = later.drop_last();
        assert(whole.drop_last() =~= history + earlier);
        lemma_later_ones_first(history, earlier);
        let before = most_recent_first(history + earlier);
        let front = most_recent_first(earlier);
        lemma_most_recent_first(history + earlier);
        lemma_most_recent_first(earlier);
        assert forall|i: int| 0 <= i < front.len() implies front[i] == before[i] by {
            assert(before.take(front.len() as int)[i] == before[i]);
        }
        if front.contains(y) {
            let i = front.index_of(y);
            assert(before[i] == y);
            assert(before.index_of(y) == i);
        } else if before.contains(y) {
            let i = before.index_of(y);
            assert(i >= front.len()) by {
                if i < front.len() {
                    assert(front[i] == y);
                }
            }
        }
        assert(most_recent_first(whole).take(most_recent_first(later).len() as int)
            =~= most_recent_first(later));
    }
}

/// An identifier is remembered exactly until `capacity` different ones have been seen
/// after it: it is forgotten neither earlier nor later.
pub proof fn forgotten_when_crowded_out(
    history: Seq<Seq<u8>>,
    id: Seq<u8>,
    later: Seq<Seq<u8>>,
    capacity: nat,
)
    requires
        capacity > 0,
        !later.contains(id),
    ensures
        remembered(history.push(id) + later, capacity).contains(id) <==> later.to_set().len()
            < capacity,
{
    let whole = history.push(id) + later;
    let all = most_recent_first(whole);
    let others = most_recent_first(later);
    lemma_most_recent_first(later);
    others.unique_seq_to_set();
    assert(others.to_set() =~= later.to_set());
    if others.len() < capacity {
        duplicate_until_crowded_out(history, id, later, capacity);
    } else {
        remembers_the_most_recent(whole, capacity);
        lemma_later_ones_first(history.push(id), later);
        let held = first(all, capacity);
        assert forall|i: int| 0 <= i < held.len() implies held[i] != id by {
            assert(all.take(others.len() as int)[i] == all[i]);
            assert(others.contains(others[i]));
        }
    }
}

} // verus!
