//! The bounded section cache: an outside least-recently-used map, declared
//! to the verifier and modelled by its contents, its recency order and its
//! capacity. Every method the store calls goes through a trusted wrapper
//! whose contract states what the cache's source shows.

use vstd::prelude::*;
use crate::section::{Chapter, ChapterV};

verus! {

#[verifier::external_type_specification]
#[verifier::external_body]
#[verifier::reject_recursive_types(K)]
#[verifier::reject_recursive_types(V)]
#[verifier::reject_recursive_types(S)]
pub struct ExLruCache<K, V, S>(lru::LruCache<K, V, S>);

#[verifier::external_type_specification]
#[verifier::external_body]
pub struct ExLruDefaultHasher(lru::DefaultHasher);

/// The concrete cache the section store uses: section index to section.
pub type SectionCache = lru::LruCache<usize, Chapter>;

/// What the cache holds: section index to realized section.
pub uninterp spec fn lru_map(c: SectionCache) -> Map<int, ChapterV>;

/// The cache's recency order, most recently used first; it carries exactly
/// the keys of `lru_map`, each once.
pub uninterp spec fn lru_queue(c: SectionCache) -> Seq<int>;

/// The fixed capacity the cache was created with.
pub uninterp spec fn lru_cap(c: SectionCache) -> int;

/// `q` with `k` moved to the front.
pub open spec fn spec_to_front(q: Seq<int>, k: int) -> Seq<int> {
    seq![k] + q.filter(|x: int| x != k)
}

/// Relies on `lru::LruCache::new`: a fresh cache is empty and keeps the
/// given capacity.
#[verifier::external_body]
pub fn cache_new(cap: usize) -> (c: SectionCache)
    requires
        cap >= 1,
    ensures
        lru_cap(c) == cap,
        forall|i: int| !(#[trigger] lru_map(c).contains_key(i)),
        lru_queue(c) == Seq::<int>::empty(),
        lru_map(c).len() == 0,
{
    lru::LruCache::new(std::num::NonZeroUsize::new(cap).unwrap())
}

/// Relies on `lru::LruCache::get`: a hit hands back the stored value and
/// refreshes its recency; a miss changes nothing; the contents never change.
#[verifier::external_body]
pub fn cache_get<'a>(c: &'a mut SectionCache, k: usize) -> (r: Option<&'a Chapter>)
    ensures
        lru_cap(*final(c)) == lru_cap(*old(c)),
        lru_map(*final(c)) == lru_map(*old(c)),
        lru_map(*final(c)).len() == lru_map(*old(c)).len(),
        match r {
            Some(ch) => lru_map(*old(c)).contains_key(k as int) && lru_map(*old(c))[k as int]
                == ch@ && lru_queue(*final(c)) == spec_to_front(lru_queue(*old(c)), k as int),
            None => !lru_map(*old(c)).contains_key(k as int) && lru_queue(*final(c)) == lru_queue(
                *old(c),
            ),
        },
{
    c.get(&k)
}

/// Relies on `lru::LruCache::put`: an existing key is overwritten and its
/// old value handed back; a new key is inserted, evicting the least
/// recently used entry when the cache is at capacity, so the cache never
/// holds more entries than its capacity; the refreshed or new key moves to
/// the front of the recency order.
#[verifier::external_body]
pub fn cache_put(c: &mut SectionCache, k: usize, v: Chapter) -> (r: Option<Chapter>)
    ensures
        lru_cap(*final(c)) == lru_cap(*old(c)),
        lru_map(*final(c)).len() <= lru_cap(*final(c)),
        ({
            let m = lru_map(*old(c));
            let q = lru_queue(*old(c));
            let ki = k as int;
            if m.contains_key(ki) {
                &&& lru_map(*final(c)) == m.insert(ki, v@)
                &&& lru_queue(*final(c)) == spec_to_front(q, ki)
                &&& r matches Some(o) && o@ == m[ki]
            } else if q.len() < lru_cap(*old(c)) {
                &&& lru_map(*final(c)) == m.insert(ki, v@)
                &&& lru_queue(*final(c)) == seq![ki] + q
                &&& r is None
            } else {
                &&& q.len() > 0 ==> lru_map(*final(c)) == m.remove(q.last()).insert(ki, v@)
                    && lru_queue(*final(c)) == seq![ki] + q.drop_last()
                &&& r is None
            }
        }),
{
    c.put(k, v)
}

} // verus!
