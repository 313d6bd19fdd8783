use vstd::prelude::*;

use std::sync::Arc;

use crate::text::{chars_of, push_seq, same_chars, string_of};

verus! {

/// A span of time, in milliseconds.
#[derive(Debug, Clone, Copy, PartialEq, Eq, Structural)]
pub struct Duration {
    pub millis: i64,
}

impl Duration {
    pub fn milliseconds(millis: i64) -> (r: Duration)
        ensures
            r.millis == millis,
    {
        Duration { millis }
    }
}

/// How long a cached value stays fresh.
#[derive(Debug, Clone, Copy, PartialEq, Eq, Structural)]
pub enum Expire {
    Never,
    After(Duration),
}

/// When a value stored at `now` with `expire` stops being fresh: never, or
/// at a time in milliseconds.
pub open spec fn expiry(expire: Expire, now: int) -> Option<int> {
    match expire {
        Expire::Never => None,
        Expire::After(d) => Some(now + d.millis),
    }
}

/// The value of a stored entry, if it is still fresh at `now`.
pub open spec fn fresh<T>(entry: Option<(Option<int>, T)>, now: int) -> Option<T> {
    match entry {
        Some((None, v)) => Some(v),
        Some((Some(at), v)) => if now <= at { Some(v) } else { None },
        None => None,
    }
}

/// The entry stored under `key` among `entries`, the latest one first.
pub open spec fn lookup<T>(entries: Seq<(Seq<char>, Option<int>, T)>, key: Seq<char>) -> Option<(Option<int>, T)>
    decreases entries.len(),
{
    if entries.len() == 0 {
        None
    } else if entries.last().0 == key {
        Some((entries.last().1, entries.last().2))
    } else {
        lookup(entries.drop_last(), key)
    }
}

/// No two entries share a key.
pub open spec fn unique_keys<T>(entries: Seq<(Seq<char>, Option<int>, T)>) -> bool {
    forall|i: int, j: int| 0 <= i < j < entries.len() ==> entries[i].0 != entries[j].0
}

proof fn lemma_lookup_at<T>(entries: Seq<(Seq<char>, Option<int>, T)>, i: int)
    requires
        unique_keys(entries),
        0 <= i < entries.len(),
    ensures
        lookup(entries, entries[i].0) == Some((entries[i].1, entries[i].2)),
    decreases entries.len(),
{
    if i < entries.len() - 1 {
        assert(entries.drop_last()[i] == entries[i]);
        lemma_lookup_at(entries.drop_last(), i);
    }
}

proof fn lemma_lookup_absent<T>(entries: Seq<(Seq<char>, Option<int>, T)>, key: Seq<char>)
    requires
        forall|i: int| 0 <= i < entries.len() ==> entries[i].0 != key,
    ensures
        lookup(entries, key) is None,
    decreases entries.len(),
{
    if entries.len() > 0 {
        assert(entries.last().0 != key);
        lemma_lookup_absent(entries.drop_last(), key);
    }
}

proof fn lemma_lookup_update<T>(
    entries: Seq<(Seq<char>, Option<int>, T)>,
    i: int,
    e: (Seq<char>, Option<int>, T),
    key: Seq<char>,
)
    requires
        unique_keys(entries),
        0 <= i < entries.len(),
        entries[i].0 == e.0,
    ensures
        lookup(entries.update(i, e), key) == if key == e.0 { Some((e.1, e.2)) } else { lookup(entries, key) },
    decreases entries.len(),
{
    let u = entries.update(i, e);
    if i == entries.len() - 1 {
        assert(u.drop_last() =~= entries.drop_last());
    } else {
        assert(u.drop_last() =~= entries.drop_last().update(i, e));
        assert(entries.last().0 != e.0);
        lemma_lookup_update(entries.drop_last(), i, e, key);
    }
}

proof fn lemma_lookup_push<T>(entries: Seq<(Seq<char>, Option<int>, T)>, e: (Seq<char>, Option<int>, T), key: Seq<char>)
    ensures
        lookup(entries.push(e), key) == if key == e.0 { Some((e.1, e.2)) } else { lookup(entries, key) },
{
    assert(entries.push(e).drop_last() =~= entries);
}

struct CacheEntry<T> {
    key: String,
    expire_at: Option<i128>,
    value: Arc<T>,
}

/// A memo of values by key, each kept until its expiry; or, built with
/// `non_caching`, one that keeps nothing.
pub struct ContentCache<T> {
    cache: Option<Vec<CacheEntry<T>>>,
}

/// Relies on `Arc::clone`: the new handle shares the value of the old one.
#[verifier::external_body]
pub(crate) fn share<T>(a: &Arc<T>) -> (r: Arc<T>)
    ensures
        r == *a,
{
    Arc::clone(a)
}

/// Relies on `chrono::Utc::now`: the current time in milliseconds since the
/// Unix epoch. Nothing is promised of its value.
#[verifier::external_body]
fn now_millis() -> (r: i64) {
    chrono::Utc::now().timestamp_millis()
}

pub open spec fn opt_int(o: Option<i128>) -> Option<int> {
    match o {
        Some(v) => Some(v as int),
        None => None,
    }
}

impl<T> ContentCache<T> {
    /// Whether the cache keeps values.
    pub closed spec fn caching(&self) -> bool {
        self.cache is Some
    }

    /// The stored entries: key, expiry and value.
    pub closed spec fn entries(&self) -> Seq<(Seq<char>, Option<int>, T)> {
        match self.cache {
            Some(v) => v@.map_values(|e: CacheEntry<T>| (e.key@, opt_int(e.expire_at), *e.value)),
            None => Seq::empty(),
        }
    }

    /// The entry stored under `key`: its expiry and value.
    pub open spec fn stored(&self, key: Seq<char>) -> Option<(Option<int>, T)> {
        lookup(self.entries(), key)
    }

    /// The value `get` gives for `key` at time `now`.
    pub open spec fn get_spec(&self, key: Seq<char>, now: int) -> Option<T> {
        fresh(self.stored(key), now)
    }

    /// At most one entry per key; nothing stored without caching.
    pub open spec fn wf(&self) -> bool {
        &&& unique_keys(self.entries())
        &&& (!self.caching() ==> self.entries().len() == 0)
    }

    /// What storing `value` under `key` with expiry `at` makes of `old`.
    pub open spec fn added(old: &Self, new: &Self, key: Seq<char>, at: Option<int>, value: T) -> bool {
        &&& new.wf()
        &&& new.caching() == old.caching()
        &&& if old.caching() {
            &&& new.stored(key) == Some((at, value))
            &&& forall|k: Seq<char>| k != key ==> new.stored(k) == old.stored(k)
        } else {
            new.entries() == old.entries()
        }
    }

    /// Whether the cache keeps values.
    pub fn is_caching(&self) -> (r: bool)
        ensures
            r == self.caching(),
    {
        self.cache.is_some()
    }

    /// What `get_at` gives for `key` at `now`: the fresh stored value, or
    /// nothing.
    pub open spec fn lookup_matches(&self, key: Seq<char>, now: int, r: Option<Arc<T>>) -> bool {
        match self.get_spec(key, now) {
            Some(v) => r matches Some(a) && *a == v,
            None => r is None,
        }
    }

    /// What `get_or_at` does for `key` at `now`: a fresh stored value is
    /// handed back with the cache unchanged; otherwise the generator's
    /// value is stored and handed back, or its failure handed back with
    /// nothing stored.
    pub open spec fn get_or_matches<E, F: FnOnce() -> Result<T, E>>(
        old: &Self,
        new: &Self,
        key: Seq<char>,
        expire_after: Expire,
        now: int,
        generator: F,
        r: Result<Arc<T>, E>,
    ) -> bool {
        match old.get_spec(key, now) {
            Some(v) => r matches Ok(a) && *a == v && *new == *old,
            None => match r {
                Ok(a) => generator.ensures((), Ok(*a))
                    && Self::added(old, new, key, expiry(expire_after, now), *a),
                Err(e) => generator.ensures((), Err(e)) && *new == *old,
            },
        }
    }

    /// A cache that keeps values.
    pub fn new() -> (r: Self)
        ensures
            r.wf(),
            r.caching(),
            forall|k: Seq<char>| r.stored(k) is None,
    {
        let r = ContentCache { cache: Some(Vec::new()) };
        proof {
            assert forall|k: Seq<char>| r.stored(k) is None by {
                assert(r.entries().len() == 0);
            }
        }
        r
    }

    /// A cache that keeps nothing: each value added is handed back unstored.
    pub fn non_caching() -> (r: Self)
        ensures
            r.wf(),
            !r.caching(),
    {
        ContentCache { cache: None }
    }

    fn find_key(entries: &Vec<CacheEntry<T>>, key: &[char]) -> (r: Option<usize>)
        ensures
            match r {
                Some(i) => i < entries@.len() && entries@[i as int].key@ == key@,
                None => forall|i: int| 0 <= i < entries@.len() ==> entries@[i].key@ != key@,
            },
    {
        let mut i: usize = 0;
        while i < entries.len()
            invariant
                i <= entries@.len(),
                forall|j: int| 0 <= j < i ==> entries@[j].key@ != key@,
            decreases entries@.len() - i,
        {
            let k = chars_of(entries[i].key.as_str());
            if same_chars(k.as_slice(), key) {
                return Some(i);
            }
            i = i + 1;
        }
        None
    }

    /// The value stored under `key` if it is still fresh at `now`.
    pub fn get_at(&self, key: &str, now: i64) -> (r: Option<Arc<T>>)
        requires
            self.wf(),
        ensures
            self.lookup_matches(key@, now as int, r),
    {
        match &self.cache {
            None => None,
            Some(entries) => {
                let k = chars_of(key);
                match Self::find_key(entries, k.as_slice()) {
                    None => {
                        proof {
                            lemma_lookup_absent(self.entries(), key@);
                        }
                        None
                    },
                    Some(i) => {
                        proof {
                            lemma_lookup_at(self.entries(), i as int);
                        }
                        let e = &entries[i];
                        match e.expire_at {
                            None => Some(share(&e.value)),
                            Some(at) => if (now as i128) > at {
                                None
                            } else {
                                Some(share(&e.value))
                            },
                        }
                    },
                }
            },
        }
    }

    /// Stores `content` under `key` at time `now`, fresh as `expire_after`
    /// says, replacing any earlier entry for the key; returns a handle to it.
    /// Without caching nothing is stored.
    pub fn add_at(&mut self, key: String, content: T, expire_after: Expire, now: i64) -> (r: Arc<T>)
        requires
            old(self).wf(),
        ensures
            *r == content,
            Self::added(old(self), final(self), key@, expiry(expire_after, now as int), content),
    {
        let at: Option<i128> = match expire_after {
            Expire::Never => None,
            Expire::After(d) => Some(now as i128 + d.millis as i128),
        };
        let ghost cv = content;
        let value = Arc::new(content);
        let handed = share(&value);
        let ghost before = self.entries();
        let mut taken: Option<Vec<CacheEntry<T>>> = None;
        std::mem::swap(&mut taken, &mut self.cache);
        if let Some(mut entries) = taken {
            let k = chars_of(key.as_str());
            let ghost e = (key@, opt_int(at), cv);
            let entry = CacheEntry { key, expire_at: at, value };
            assert(before == entries@.map_values(|e: CacheEntry<T>| (e.key@, opt_int(e.expire_at), *e.value)));
            match Self::find_key(&entries, k.as_slice()) {
                Some(i) => {
                    entries.set(i, entry);
                    self.cache = Some(entries);
                    proof {
                        assert(self.entries() =~= before.update(i as int, e));
                        assert forall|kk: Seq<char>| #[trigger] lookup(self.entries(), kk)
                            == if kk == e.0 { Some((e.1, e.2)) } else { lookup(before, kk) } by {
                            lemma_lookup_update(before, i as int, e, kk);
                        }
                        assert(unique_keys(self.entries()));
                    }
                },
                None => {
                    entries.push(entry);
                    self.cache = Some(entries);
                    proof {
                        assert(self.entries() =~= before.push(e));
                        assert forall|j: int| 0 <= j < before.len() implies before[j].0 != e.0 by {
                            assert(before[j].0 == entries@[j].key@);
                        }
                        assert forall|kk: Seq<char>| #[trigger] lookup(self.entries(), kk)
                            == if kk == e.0 { Some((e.1, e.2)) } else { lookup(before, kk) } by {
                            lemma_lookup_push(before, e, kk);
                        }
                        assert(unique_keys(self.entries()));
                    }
                },
            }
        }
        handed
    }

    /// The value for `key` at `now` if one is fresh; otherwise runs
    /// `generator` and, when it succeeds, stores its value as `add_at` does
    /// and returns it. A failure is handed back and nothing is stored.
    pub fn get_or_at<E, F: FnOnce() -> Result<T, E>>(
        &mut self,
        key: &str,
        expire_after: Expire,
        now: i64,
        generator: F,
    ) -> (r: Result<Arc<T>, E>)
        requires
            old(self).wf(),
            generator.requires(()),
        ensures
            final(self).wf(),
            Self::get_or_matches(old(self), final(self), key@, expire_after, now as int, generator, r),
    {
        if let Some(v) = self.get_at(key, now) {
            return Ok(v);
        }
        match generator() {
            Ok(v) => Ok(self.add_at(key.to_owned(), v, expire_after, now)),
            Err(e) => Err(e),
        }
    }

    /// The value stored under `key` if it is still fresh now: what `get_at`
    /// gives at the time read from the clock. A value stored to never
    /// expire is always handed back.
    pub fn get(&self, key: &str) -> (r: Option<Arc<T>>)
        requires
            self.wf(),
        ensures
            exists|now: int| self.lookup_matches(key@, now, r),
            self.stored(key@) matches Some((None, v)) ==> (r matches Some(a) && *a == v),
            !self.caching() ==> r is None,
    {
        let now = now_millis();
        let r = self.get_at(key, now);
        assert(self.lookup_matches(key@, now as int, r));
        r
    }

    /// Stores `content` under `key` now; see `add_at`.
    pub fn add(&mut self, key: String, content: T, expire_after: Expire) -> (r: Arc<T>)
        requires
            old(self).wf(),
        ensures
            *r == content,
            exists|now: int| Self::added(old(self), final(self), key@, expiry(expire_after, now), content),
    {
        let now = now_millis();
        self.add_at(key, content, expire_after, now)
    }

    /// The value for `key` if one is fresh now; otherwise runs `generator`
    /// and stores what it gives; see `get_or_at`.
    pub fn get_or<E, F: FnOnce() -> Result<T, E>>(&mut self, key: &str, expire_after: Expire, generator: F) -> (r: Result<Arc<T>, E>)
        requires
            old(self).wf(),
            generator.requires(()),
        ensures
            final(self).wf(),
            exists|now: int| Self::get_or_matches(old(self), final(self), key@, expire_after, now, generator, r),
            old(self).stored(key@) matches Some((None, v)) ==> (r matches Ok(a) && *a == v && *final(self) == *old(self)),
    {
        let now = now_millis();
        let r = self.get_or_at(key, expire_after, now, generator);
        assert(Self::get_or_matches(old(self), final(self), key@, expire_after, now as int, generator, r));
        r
    }

    /// The post stored under `link`, if still fresh now.
    pub fn get_post(&self, link: &str) -> (r: Option<Arc<T>>)
        requires
            self.wf(),
        ensures
            exists|now: int| self.lookup_matches(post_key(link@), now, r),
            self.stored(post_key(link@)) matches Some((None, v)) ==> (r matches Some(a) && *a == v),
            !self.caching() ==> r is None,
    {
        let key = prefixed_key("post-", link);
        proof {
            reveal_strlit("post-");
            assert("post-"@ =~= seq!['p', 'o', 's', 't', '-']);
        }
        self.get(key.as_str())
    }

    /// The page stored under `link`, if still fresh now.
    pub fn get_page(&self, link: &str) -> (r: Option<Arc<T>>)
        requires
            self.wf(),
        ensures
            exists|now: int| self.lookup_matches(page_key(link@), now, r),
            self.stored(page_key(link@)) matches Some((None, v)) ==> (r matches Some(a) && *a == v),
            !self.caching() ==> r is None,
    {
        let key = prefixed_key("page-", link);
        proof {
            reveal_strlit("page-");
            assert("page-"@ =~= seq!['p', 'a', 'g', 'e', '-']);
        }
        self.get(key.as_str())
    }

    /// Stores a post under `link` now.
    pub fn add_post(&mut self, link: &str, content: T, expire_after: Expire) -> (r: Arc<T>)
        requires
            old(self).wf(),
        ensures
            *r == content,
            exists|now: int| Self::added(old(self), final(self), post_key(link@), expiry(expire_after, now), content),
    {
        let key = prefixed_key("post-", link);
        proof {
            reveal_strlit("post-");
            assert("post-"@ =~= seq!['p', 'o', 's', 't', '-']);
        }
        self.add(key, content, expire_after)
    }

    /// Stores a page under `link` now.
    pub fn add_page(&mut self, link: &str, content: T, expire_after: Expire) -> (r: Arc<T>)
        requires
            old(self).wf(),
        ensures
            *r == content,
            exists|now: int| Self::added(old(self), final(self), page_key(link@), expiry(expire_after, now), content),
    {
        let key = prefixed_key("page-", link);
        proof {
            reveal_strlit("page-");
            assert("page-"@ =~= seq!['p', 'a', 'g', 'e', '-']);
        }
        self.add(key, content, expire_after)
    }
}

/// The key under which the post of `link` is stored.
pub open spec fn post_key(link: Seq<char>) -> Seq<char> {
    seq!['p', 'o', 's', 't', '-'] + link
}

/// The key under which the page of `link` is stored.
pub open spec fn page_key(link: Seq<char>) -> Seq<char> {
    seq!['p', 'a', 'g', 'e', '-'] + link
}

fn prefixed_key(prefix: &str, link: &str) -> (r: String)
    ensures
        r@ == prefix@ + link@,
{
    let mut k = chars_of(prefix);
    push_seq(&mut k, chars_of(link).as_slice());
    string_of(k.as_slice())
}

/// A value stored to never expire stays fresh at every later time, so a
/// second `get_or_at` for its key hands it back without running the
/// generator.
pub proof fn lemma_never_stays_fresh<T>(
    before: &ContentCache<T>,
    after: &ContentCache<T>,
    key: Seq<char>,
    value: T,
    stored_at: int,
    now: int,
)
    requires
        before.caching(),
        ContentCache::added(before, after, key, expiry(Expire::Never, stored_at), value),
    ensures
        after.get_spec(key, now) == Some(value),
{
}

/// After a `get_or_at` with `Expire::Never` that finds no fresh value on a
/// caching cache and succeeds, the key holds that value with no expiry; so every later `get`,
/// `get_or` or `get_or_at` for it, at any time, hands the same value back
/// and does not run its generator again.
pub proof fn lemma_get_or_never_then_hits<T, E, F: FnOnce() -> Result<T, E>>(
    before: &ContentCache<T>,
    after: &ContentCache<T>,
    key: Seq<char>,
    now: int,
    generator: F,
    r: Result<Arc<T>, E>,
    later: int,
)
    requires
        before.caching(),
        before.get_spec(key, now) is None,
        ContentCache::get_or_matches(before, after, key, Expire::Never, now, generator, r),
        r is Ok,
    ensures
        after.stored(key) matches Some((None, v)) && r matches Ok(a) && *a == v,
        after.get_spec(key, later) matches Some(v) && r matches Ok(a) && *a == v,
{
}

/// A value stored with `Expire::After(d)` at `stored_at` is fresh up to
/// `stored_at + d` and stale after it, when `get_or_at` runs the generator
/// again.
pub proof fn lemma_expires_after_ttl<T>(
    before: &ContentCache<T>,
    after: &ContentCache<T>,
    key: Seq<char>,
    value: T,
    stored_at: int,
    d: Duration,
    now: int,
)
    requires
        before.caching(),
        ContentCache::added(before, after, key, expiry(Expire::After(d), stored_at), value),
    ensures
        now <= stored_at + d.millis ==> after.get_spec(key, now) == Some(value),
        now > stored_at + d.millis ==> after.get_spec(key, now) is None,
{
}

/// A non-caching cache hands back nothing for any key at any time, also
/// after values were added to it.
pub proof fn lemma_non_caching_never_hits<T>(
    before: &ContentCache<T>,
    after: &ContentCache<T>,
    added_key: Seq<char>,
    at: Option<int>,
    value: T,
    key: Seq<char>,
    now: int,
)
    requires
        before.wf(),
        !before.caching(),
        ContentCache::added(before, after, added_key, at, value),
    ensures
        before.get_spec(key, now) is None,
        !after.caching(),
        after.get_spec(key, now) is None,
{
    reveal(ContentCache::entries);
}

} // verus!
