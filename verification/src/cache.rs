//! The server's cache of quakes and its subscribers: new quakes are added
//! (the oldest dropped past the limit) and passed on to every subscriber.

use vstd::prelude::*;
use crate::phivolcs::{contains_quake, has_quake};
use crate::quake::{Quake, QuakeList, QuakeView, quake_views};
use crate::websocket::CacheUpdates;

verus! {

/// The most quakes the cache keeps after an update.
pub const CACHE_LIMIT: usize = 20000;

/// The updates that are not in the cache yet, in order.
pub open spec fn fresh(updates: Seq<QuakeView>, cache: Seq<QuakeView>) -> Seq<QuakeView>
    decreases updates.len(),
{
    if updates.len() == 0 {
        Seq::<QuakeView>::empty()
    } else {
        let r = fresh(updates.drop_last(), cache);
        if has_quake(cache, updates.last()) {
            r
        } else {
            r.push(updates.last())
        }
    }
}

/// The last `limit` quakes of `qs`.
pub open spec fn newest(qs: Seq<QuakeView>, limit: nat) -> Seq<QuakeView> {
    if qs.len() > limit {
        qs.subrange(qs.len() - limit, qs.len() as int)
    } else {
        qs
    }
}

/// `s` without `a`.
pub open spec fn without(s: Seq<u64>, a: u64) -> Seq<u64>
    decreases s.len(),
{
    if s.len() == 0 {
        Seq::<u64>::empty()
    } else {
        let r = without(s.drop_last(), a);
        if s.last() == a {
            r
        } else {
            r.push(s.last())
        }
    }
}

/// The cache after an update: unchanged where nothing is new, else the
/// newest `CACHE_LIMIT` of the cache followed by the new quakes.
pub open spec fn updated_cache(cache: Seq<QuakeView>, updates: Seq<QuakeView>) -> Seq<QuakeView> {
    let f = fresh(updates, cache);
    if f.len() == 0 {
        cache
    } else {
        newest(cache + f, CACHE_LIMIT as nat)
    }
}

/// New quakes for the cache.
pub struct UpdateCache(pub Vec<Quake>);

/// A request for all the quakes of the cache.
pub struct GetQuakes;

/// The quakes of the cache.
pub struct GetQuakesResponse(pub QuakeList);

/// A subscriber that wants the cache's quakes and its updates.
pub struct Connect {
    pub addr: u64,
}

/// A subscriber that leaves.
pub struct Disconnect {
    pub addr: u64,
}

/// The cached quakes, oldest first, and the subscribers, in the order they came.
pub struct CacheActor {
    quakes: Vec<Quake>,
    sessions: Vec<u64>,
}

impl CacheActor {
    pub closed spec fn spec_quakes(&self) -> Seq<QuakeView> {
        quake_views(self.quakes@)
    }

    pub closed spec fn spec_sessions(&self) -> Seq<u64> {
        self.sessions@
    }

    pub fn new(quakes: Vec<Quake>) -> (c: CacheActor)
        ensures
            c.spec_quakes() == quake_views(quakes@),
            c.spec_sessions() == Seq::<u64>::empty(),
    {
        let sessions: Vec<u64> = Vec::new();
        CacheActor { quakes, sessions }
    }

    pub fn get_sessions(&self) -> (r: Vec<u64>)
        ensures
            r@ == self.spec_sessions(),
    {
        self.sessions.clone()
    }

    /// Adds the quakes of `msg` that are not cached yet, drops the oldest
    /// past `CACHE_LIMIT`, and gives the message for each subscriber: the new
    /// quakes. Without new quakes nothing changes and nothing is sent.
    pub fn handle_update(&mut self, msg: UpdateCache) -> (sends: Vec<(u64, CacheUpdates)>)
        ensures
            final(self).spec_quakes() == updated_cache(old(self).spec_quakes(), quake_views(msg.0@)),
            final(self).spec_sessions() == old(self).spec_sessions(),
            fresh(quake_views(msg.0@), old(self).spec_quakes()).len() == 0 ==> sends@.len() == 0,
            fresh(quake_views(msg.0@), old(self).spec_quakes()).len() > 0 ==> {
                &&& sends@.len() == old(self).spec_sessions().len()
                &&& forall|i: int| 0 <= i < sends@.len() ==> (#[trigger] sends@[i]).0 == old(self).spec_sessions()[i]
                    && sends@[i].1.0.spec_quakes() == fresh(quake_views(msg.0@), old(self).spec_quakes())
            },
    {
        let updates = msg.0;
        let ghost cache = quake_views(self.quakes@);
        let ghost ups = quake_views(updates@);
        let mut new_quakes: Vec<Quake> = Vec::new();
        let mut i: usize = 0;
        proof {
            assert(ups.subrange(0, 0) =~= Seq::<QuakeView>::empty());
            assert(quake_views(new_quakes@) =~= Seq::<QuakeView>::empty());
        }
        while i < updates.len()
            invariant
                i <= updates.len(),
                cache == quake_views(self.quakes@),
                ups == quake_views(updates@),
                quake_views(new_quakes@) == fresh(ups.subrange(0, i as int), cache),
            decreases updates.len() - i,
        {
            proof {
                assert(ups.subrange(0, i + 1).drop_last() =~= ups.subrange(0, i as int));
                assert(ups.subrange(0, i + 1).last() == updates@[i as int]@);
            }
            if !contains_quake(&self.quakes, &updates[i]) {
                let ghost prev = quake_views(new_quakes@);
                new_quakes.push(updates[i].clone());
                proof {
                    assert(quake_views(new_quakes@) =~= prev.push(updates@[i as int]@));
                }
            }
            i = i + 1;
        }
        proof {
            assert(ups.subrange(0, ups.len() as int) =~= ups);
        }
        let mut sends: Vec<(u64, CacheUpdates)> = Vec::new();
        if new_quakes.len() > 0 {
            let mut added = new_quakes.clone();
            proof {
                assert(quake_views(added@) =~= quake_views(new_quakes@)) by {
                    assert forall|k: int| 0 <= k < added@.len() implies added@[k]@ == new_quakes@[k]@ by {
                        assert(vstd::pervasive::cloned(new_quakes[k], added[k]));
                    }
                }
            }
            let ghost before = self.quakes@;
            let ghost moved = added@;
            self.quakes.append(&mut added);
            proof {
                assert(self.quakes@ == before + moved);
                assert(quake_views(self.quakes@) =~= cache + quake_views(new_quakes@));
            }
            if self.quakes.len() > CACHE_LIMIT {
                let number_to_remove = self.quakes.len() - CACHE_LIMIT;
                let ghost all = self.quakes@;
                let kept = self.quakes.split_off(number_to_remove);
                self.quakes = kept;
                proof {
                    assert(quake_views(self.quakes@) =~= quake_views(all).subrange(
                        quake_views(all).len() - CACHE_LIMIT,
                        quake_views(all).len() as int,
                    ));
                }
            }
            let list = QuakeList::new(new_quakes);
            let mut j: usize = 0;
            while j < self.sessions.len()
                invariant
                    j <= self.sessions.len(),
                    list.spec_quakes() == fresh(ups, cache),
                    sends@.len() == j,
                    forall|k: int| 0 <= k < j ==> (#[trigger] sends@[k]).0 == self.sessions@[k]
                        && sends@[k].1.0.spec_quakes() == fresh(ups, cache),
                decreases self.sessions.len() - j,
            {
                sends.push((self.sessions[j], CacheUpdates(list.clone())));
                j = j + 1;
            }
        }
        sends
    }

    /// All the cached quakes.
    pub fn handle_get(&self, msg: GetQuakes) -> (r: GetQuakesResponse)
        ensures
            r.0.spec_quakes() == self.spec_quakes(),
    {
        let c = self.quakes.clone();
        proof {
            assert(quake_views(c@) =~= self.spec_quakes()) by {
                assert forall|k: int| 0 <= k < self.quakes@.len() implies c@[k]@ == self.quakes@[k]@ by {
                    assert(vstd::pervasive::cloned(self.quakes[k], c[k]));
                }
            }
        }
        GetQuakesResponse(QuakeList::new(c))
    }

    /// Adds the subscriber and gives what it is sent first: all the cached quakes.
    pub fn handle_connect(&mut self, msg: Connect) -> (r: CacheUpdates)
        ensures
            r.0.spec_quakes() == old(self).spec_quakes(),
            final(self).spec_quakes() == old(self).spec_quakes(),
            final(self).spec_sessions() == old(self).spec_sessions().push(msg.addr),
    {
        let GetQuakesResponse(list) = self.handle_get(GetQuakes);
        self.sessions.push(msg.addr);
        CacheUpdates(list)
    }

    /// Removes the subscriber.
    pub fn handle_disconnect(&mut self, msg: Disconnect)
        ensures
            final(self).spec_quakes() == old(self).spec_quakes(),
            final(self).spec_sessions() == without(old(self).spec_sessions(), msg.addr),
    {
        let ghost ss = self.sessions@;
        let mut kept: Vec<u64> = Vec::new();
        let mut i: usize = 0;
        proof {
            assert(ss.subrange(0, 0) =~= Seq::<u64>::empty());
            assert(kept@ =~= Seq::<u64>::empty());
        }
        while i < self.sessions.len()
            invariant
                i <= self.sessions.len(),
                ss == self.sessions@,
                kept@ == without(ss.subrange(0, i as int), msg.addr),
            decreases self.sessions.len() - i,
        {
            proof {
                assert(ss.subrange(0, i + 1).drop_last() =~= ss.subrange(0, i as int));
            }
            if self.sessions[i] != msg.addr {
                kept.push(self.sessions[i]);
            }
            i = i + 1;
        }
        proof {
            assert(ss.subrange(0, ss.len() as int) =~= ss);
        }
        self.sessions = kept;
    }
}

/// No quake counted as new was in the cache already, and each comes from the updates.
pub proof fn lemma_fresh_is_new(updates: Seq<QuakeView>, cache: Seq<QuakeView>, x: QuakeView)
    ensures
        has_quake(fresh(updates, cache), x) ==> !has_quake(cache, x) && has_quake(updates, x),
        has_quake(updates, x) ==> has_quake(cache, x) || has_quake(fresh(updates, cache), x),
    decreases updates.len(),
{
    if updates.len() > 0 {
        let u = updates.drop_last();
        lemma_fresh_is_new(u, cache, x);
        let r = fresh(u, cache);
        if has_quake(fresh(updates, cache), x) {
            let i = choose|i: int| 0 <= i < fresh(updates, cache).len() && fresh(updates, cache)[i] == x;
            if i < r.len() {
                assert(r[i] == x);
                let k = choose|k: int| 0 <= k < u.len() && u[k] == x;
                assert(updates[k] == x);
            } else {
                assert(updates[updates.len() - 1] == x);
            }
        }
        if has_quake(updates, x) {
            let k = choose|k: int| 0 <= k < updates.len() && updates[k] == x;
            if k < u.len() {
                assert(u[k] == x);
                if has_quake(r, x) {
                    let i = choose|i: int| 0 <= i < r.len() && r[i] == x;
                    assert(fresh(updates, cache)[i] == x);
                }
            } else if !has_quake(cache, x) {
                assert(fresh(updates, cache) == r.push(x));
                assert(fresh(updates, cache)[r.len() as int] == x);
            }
        }
    }
}

proof fn lemma_fresh_empty(updates: Seq<QuakeView>, cache: Seq<QuakeView>)
    requires
        forall|x: QuakeView| has_quake(updates, x) ==> has_quake(cache, x),
    ensures
        fresh(updates, cache).len() == 0,
    decreases updates.len(),
{
    if updates.len() > 0 {
        let u = updates.drop_last();
        assert forall|x: QuakeView| has_quake(u, x) implies has_quake(cache, x) by {
            let k = choose|k: int| 0 <= k < u.len() && u[k] == x;
            assert(updates[k] == x);
        }
        lemma_fresh_empty(u, cache);
        assert(updates[updates.len() - 1] == updates.last());
    }
}

/// A cache within the limit stays within it after an update.
pub proof fn lemma_update_keeps_limit(cache: Seq<QuakeView>, updates: Seq<QuakeView>)
    requires
        cache.len() <= CACHE_LIMIT,
    ensures
        updated_cache(cache, updates).len() <= CACHE_LIMIT,
{
}

/// Where the new quakes fit, an update appends exactly them, in order, to the cache.
pub proof fn lemma_update_appends(cache: Seq<QuakeView>, updates: Seq<QuakeView>)
    requires
        cache.len() + fresh(updates, cache).len() <= CACHE_LIMIT,
    ensures
        updated_cache(cache, updates) == cache + fresh(updates, cache),
{
    if fresh(updates, cache).len() == 0 {
        assert(cache + fresh(updates, cache) =~= cache);
    }
}

/// Where the new quakes fit, giving the cache the same updates again changes nothing.
pub proof fn lemma_update_idempotent(cache: Seq<QuakeView>, updates: Seq<QuakeView>)
    requires
        cache.len() + fresh(updates, cache).len() <= CACHE_LIMIT,
    ensures
        updated_cache(updated_cache(cache, updates), updates) == updated_cache(cache, updates),
{
    lemma_update_appends(cache, updates);
    let c1 = updated_cache(cache, updates);
    let f = fresh(updates, cache);
    assert forall|x: QuakeView| has_quake(updates, x) implies has_quake(c1, x) by {
        lemma_fresh_is_new(updates, cache, x);
        if has_quake(cache, x) {
            let i = choose|i: int| 0 <= i < cache.len() && cache[i] == x;
            assert(c1[i] == x);
        } else {
            let i = choose|i: int| 0 <= i < f.len() && f[i] == x;
            assert(c1[cache.len() + i] == x);
        }
    }
    lemma_fresh_empty(updates, c1);
}

proof fn lemma_without_absent(s: Seq<u64>, a: u64)
    requires
        !s.contains(a),
    ensures
        without(s, a) == s,
    decreases s.len(),
{
    if s.len() > 0 {
        assert(!s.drop_last().contains(a)) by {
            if s.drop_last().contains(a) {
                let k = choose|k: int| 0 <= k < s.drop_last().len() && s.drop_last()[k] == a;
                assert(s[k] == a);
            }
        }
        lemma_without_absent(s.drop_last(), a);
        assert(s.last() != a) by {
            assert(s[s.len() - 1] == s.last());
        }
        assert(s.drop_last().push(s.last()) =~= s);
    }
}

/// A subscriber that connects and then disconnects leaves the others as they were.
pub proof fn lemma_connect_disconnect(sessions: Seq<u64>, addr: u64)
    requires
        !sessions.contains(addr),
    ensures
        without(sessions.push(addr), addr) == sessions,
{
    assert(sessions.push(addr).drop_last() =~= sessions);
    lemma_without_absent(sessions, addr);
}

/// A subscriber that disconnects is no longer among the subscribers.
pub proof fn lemma_disconnect_removes(sessions: Seq<u64>, addr: u64)
    ensures
        !without(sessions, addr).contains(addr),
        forall|x: u64| x != addr ==> (sessions.contains(x) <==> without(sessions, addr).contains(x)),
    decreases sessions.len(),
{
    if sessions.len() > 0 {
        let t = sessions.drop_last();
        lemma_disconnect_removes(t, addr);
        let r = without(t, addr);
        if without(sessions, addr).contains(addr) {
            let k = choose|k: int| 0 <= k < without(sessions, addr).len() && without(sessions, addr)[k] == addr;
            if k < r.len() {
                assert(r[k] == addr);
            }
        }
        assert forall|x: u64| x != addr implies (sessions.contains(x) <==> without(sessions, addr).contains(x)) by {
            let w = without(sessions, addr);
            assert(w == (if sessions.last() == addr { r } else { r.push(sessions.last()) }));
            assert(forall|j: int| 0 <= j < r.len() ==> w[j] == r[j]);
            if sessions.contains(x) {
                let k = choose|k: int| 0 <= k < sessions.len() && sessions[k] == x;
                if k < t.len() {
                    assert(t[k] == x);
                    assert(t.contains(x));
                    assert(r.contains(x));
                    let j = choose|j: int| 0 <= j < r.len() && r[j] == x;
                    assert(without(sessions, addr)[j] == x);
                } else {
                    assert(without(sessions, addr)[r.len() as int] == x);
                }
            }
            if without(sessions, addr).contains(x) {
                let k = choose|k: int| 0 <= k < without(sessions, addr).len() && without(sessions, addr)[k] == x;
                if k < r.len() {
                    assert(r[k] == x);
                    assert(r.contains(x));
                    assert(t.contains(x));
                    let j = choose|j: int| 0 <= j < t.len() && t[j] == x;
                    assert(sessions[j] == x);
                } else {
                    assert(sessions[sessions.len() - 1] == x);
                }
            }
        }
    }
}

/// After an update that brings new quakes, the cache holds as many quakes as
/// the old cache and the new ones together, up to `CACHE_LIMIT`: the newest
/// of the old cache, in order, followed by the new quakes. For every old
/// cache, full or not.
pub proof fn lemma_update_keeps_newest(cache: Seq<QuakeView>, updates: Seq<QuakeView>)
    requires
        fresh(updates, cache).len() > 0,
    ensures
        updated_cache(cache, updates).len() == (if cache.len() + fresh(updates, cache).len() > CACHE_LIMIT {
            CACHE_LIMIT as int
        } else {
            (cache.len() + fresh(updates, cache).len()) as int
        }),
        forall|i: int|
            0 <= i < updated_cache(cache, updates).len() ==> #[trigger] updated_cache(cache, updates)[i] == (cache
                + fresh(updates, cache))[cache.len() + fresh(updates, cache).len() - updated_cache(
                cache,
                updates,
            ).len() + i],
        fresh(updates, cache).len() <= CACHE_LIMIT ==> forall|j: int|
            0 <= j < fresh(updates, cache).len() ==> updated_cache(cache, updates)[updated_cache(cache, updates).len()
                - fresh(updates, cache).len() + j] == #[trigger] fresh(updates, cache)[j],
{
    let f = fresh(updates, cache);
    let all = cache + f;
    let r = updated_cache(cache, updates);
    assert(r == newest(all, CACHE_LIMIT as nat));
    if f.len() <= CACHE_LIMIT {
        assert forall|j: int| 0 <= j < f.len() implies r[r.len() - f.len() + j] == #[trigger] f[j] by {
            assert(all[cache.len() + j] == f[j]);
        }
    }
}

} // verus!
