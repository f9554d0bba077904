//! The watch cache: one watch of the store per prefix, a copy of what is stored
//! under it, and the recent events for those who attach later.

use std::collections::VecDeque;

use vstd::prelude::*;
use vstd::string::*;

use crate::apimachinery::watch::{dup_bytes, EventView, WatchEvent};
use crate::json::{lemma_before_irreflexive, lemma_before_transitive, ordered};
use crate::sorted::SortedMap;
use crate::text::{before, is_before, opt_str, opt_text};

verus! {

/// How many keys are read at a time to seed a copy.
pub const SEED_PAGE: usize = 1000;

/// How often, in seconds, a copy is held against the store.
pub const FRESHNESS_SECS: u64 = 5;

/// After how many seconds without an event a watch may have stalled.
pub const STALL_SECS: u64 = 30;

/// How many recent events are kept.
pub const RING_CAPACITY: usize = 1024;

/// Values as bytes.
pub open spec fn byte_map(m: Map<Seq<char>, Vec<u8>>) -> Map<Seq<char>, Seq<u8>> {
    m.map_values(|v: Vec<u8>| v@)
}

/// Keys and values as text and bytes.
pub open spec fn item_views(items: Seq<(String, Vec<u8>)>) -> Seq<(Seq<char>, Seq<u8>)> {
    items.map_values(|p: (String, Vec<u8>)| (p.0@, p.1@))
}

/// A map with some items set, in their order.
pub open spec fn with_items(
    m: Map<Seq<char>, Seq<u8>>,
    items: Seq<(Seq<char>, Seq<u8>)>,
) -> Map<Seq<char>, Seq<u8>>
    decreases items.len(),
{
    if items.len() == 0 {
        m
    } else {
        with_items(m, items.drop_last()).insert(items.last().0, items.last().1)
    }
}

/// Adds a page of the store to a copy.
pub fn add_page(snapshot: &mut SortedMap<Vec<u8>>, items: Vec<(String, Vec<u8>)>)
    requires
        old(snapshot).wf(),
    ensures
        final(snapshot).wf(),
        byte_map(final(snapshot).map()) == with_items(
            byte_map(old(snapshot).map()),
            item_views(items@),
        ),
{
    let ghost all = item_views(items@);
    let ghost start = byte_map(snapshot.map());
    let mut i: usize = 0;
    assert(with_items(start, all.take(0)) =~= start);
    while i < items.len()
        invariant
            i <= items.len(),
            all == item_views(items@),
            snapshot.wf(),
            byte_map(snapshot.map()) == with_items(start, all.take(i as int)),
        decreases items.len() - i,
    {
        let ghost was = snapshot.map();
        let v = dup_bytes(&items[i].1);
        snapshot.insert(items[i].0.as_str(), v);
        proof {
            assert(all.take(i + 1).drop_last() =~= all.take(i as int));
            assert(all.take(i + 1).last() == all[i as int]);
            assert(byte_map(snapshot.map()) =~= byte_map(was).insert(
                items@[i as int].0@,
                items@[i as int].1@,
            ));
        }
        i = i + 1;
    }
    assert(all.take(i as int) =~= all);
}

/// Entries of the ring as views.
pub open spec fn entry_views(v: Seq<(u64, WatchEvent)>) -> Seq<(u64, EventView)> {
    v.map_values(|p: (u64, WatchEvent)| (p.0, p.1@))
}

/// What a [`PrefixCache`] holds.
pub ghost struct CacheView {
    /// The recent events, each with its number.
    pub ring: Seq<(u64, EventView)>,
    /// The number of the next event.
    pub next_seq: u64,
    /// The revision after which every event is held.
    pub pump_start_rev: u64,
    /// What is stored.
    pub objects: Map<Seq<char>, Seq<u8>>,
    /// The revision of the copy.
    pub snapshot_rev: u64,
}

/// The events are numbered in order, below a bound.
pub open spec fn numbered(ring: Seq<(u64, EventView)>, next: u64) -> bool {
    &&& forall|i: int| 0 <= i < ring.len() ==> 0 < (#[trigger] ring[i]).0 < next
    &&& forall|i: int, j: int|
        0 <= i < j < ring.len() ==> (#[trigger] ring[i]).0 < (#[trigger] ring[j]).0
}

/// The cache of one prefix.
pub struct PrefixCache {
    ring: VecDeque<(u64, WatchEvent)>,
    next_seq: u64,
    pump_start_rev: u64,
    snapshot: SortedMap<Vec<u8>>,
    snapshot_rev: u64,
}

impl View for PrefixCache {
    type V = CacheView;

    closed spec fn view(&self) -> CacheView {
        CacheView {
            ring: entry_views(self.ring@),
            next_seq: self.next_seq,
            pump_start_rev: self.pump_start_rev,
            objects: byte_map(self.snapshot.map()),
            snapshot_rev: self.snapshot_rev,
        }
    }
}

/// A deletion with the object that went away, where the copy holds it.
pub open spec fn filled(objects: Map<Seq<char>, Seq<u8>>, ev: EventView) -> EventView {
    match ev {
        EventView::Deleted { key, revision, prev_value } => if prev_value is None
            && objects.contains_key(key) {
            EventView::Deleted { key, revision, prev_value: Some(objects[key]) }
        } else {
            ev
        },
        _ => ev,
    }
}

/// What is stored after an event.
pub open spec fn after_event(objects: Map<Seq<char>, Seq<u8>>, ev: EventView) -> Map<
    Seq<char>,
    Seq<u8>,
> {
    match ev {
        EventView::Added { key, value, revision } => objects.insert(key, value),
        EventView::Modified { key, value, revision } => objects.insert(key, value),
        EventView::Deleted { key, revision, prev_value } => objects.remove(key),
        EventView::Bookmark { revision } => objects,
    }
}

/// The ring with one more event; the oldest goes where it is full.
pub open spec fn with_event(ring: Seq<(u64, EventView)>, seq: u64, ev: EventView) -> Seq<
    (u64, EventView),
> {
    if ring.len() == RING_CAPACITY {
        ring.skip(1).push((seq, ev))
    } else {
        ring.push((seq, ev))
    }
}

/// The revision after which a ring holds every event, once one more has come: an
/// event that goes takes its revision with it.
pub open spec fn held_from(ring: Seq<(u64, EventView)>, start_rev: u64) -> u64 {
    if ring.len() == RING_CAPACITY && ring[0].1.revision() > start_rev {
        ring[0].1.revision()
    } else {
        start_rev
    }
}

/// The cache after an event.
pub open spec fn pumped(c: CacheView, ev: EventView) -> CacheView {
    CacheView {
        ring: with_event(c.ring, c.next_seq, filled(c.objects, ev)),
        next_seq: (c.next_seq + 1) as u64,
        pump_start_rev: held_from(c.ring, c.pump_start_rev),
        objects: after_event(c.objects, ev),
        snapshot_rev: ev.revision(),
    }
}

/// The keys behind a key.
pub open spec fn keys_after(keys: Seq<Seq<char>>, token: Option<Seq<char>>) -> Seq<Seq<char>>
    decreases keys.len(),
{
    match token {
        None => keys,
        Some(t) => if keys.len() == 0 || before(t, keys[0]) {
            keys
        } else {
            keys_after(keys.skip(1), token)
        },
    }
}

/// The keys of one page; a limit of 0 is none.
pub open spec fn page_keys(rest: Seq<Seq<char>>, limit: nat) -> Seq<Seq<char>> {
    if limit == 0 || rest.len() <= limit {
        rest
    } else {
        rest.take(limit as int)
    }
}

/// The token of the next page, where there is more.
pub open spec fn next_token(rest: Seq<Seq<char>>, limit: nat) -> Option<Seq<char>> {
    if limit == 0 || rest.len() <= limit {
        None
    } else {
        Some(rest[limit - 1])
    }
}

/// The keys of a map, each once and in order.
pub open spec fn keys_of(keys: Seq<Seq<char>>, m: Map<Seq<char>, Seq<u8>>) -> bool {
    ordered(keys) && forall|k: Seq<char>| #[trigger] m.contains_key(k) <==> keys.contains(k)
}

/// The events of the ring behind a revision.
pub open spec fn newer(ring: Seq<(u64, EventView)>, start_rev: u64) -> Seq<(u64, EventView)>
    decreases ring.len(),
{
    if ring.len() == 0 {
        Seq::empty()
    } else {
        let rest = newer(ring.drop_last(), start_rev);
        if ring.last().1.revision() > start_rev {
            rest.push(ring.last())
        } else {
            rest
        }
    }
}

impl PrefixCache {
    /// The copy is in order, and the events are numbered in order.
    pub closed spec fn wf(&self) -> bool {
        self.snapshot.wf() && self.next_seq > 0 && self.ring@.len() <= RING_CAPACITY && numbered(
            entry_views(self.ring@),
            self.next_seq,
        )
    }

    /// The events that a cache holds are few, and numbered in order.
    pub proof fn law_events_are_numbered(&self)
        requires
            self.wf(),
        ensures
            self@.ring.len() <= RING_CAPACITY,
            numbered(self@.ring, self@.next_seq),
    {
    }

    /// The keys of the copy, in order.
    pub closed spec fn keys(&self) -> Seq<Seq<char>> {
        self.snapshot.keys()
    }

    /// A cache of a prefix that was read at a revision.
    pub fn new(snapshot: SortedMap<Vec<u8>>, start_rev: u64) -> (r: PrefixCache)
        requires
            snapshot.wf(),
        ensures
            r.wf(),
            r@ == (CacheView {
                ring: Seq::empty(),
                next_seq: 1,
                pump_start_rev: start_rev,
                objects: byte_map(snapshot.map()),
                snapshot_rev: start_rev,
            }),
    {
        let r = PrefixCache {
            ring: VecDeque::new(),
            next_seq: 1,
            pump_start_rev: start_rev,
            snapshot,
            snapshot_rev: start_rev,
        };
        assert(r@.ring =~= Seq::empty());
        r
    }

    /// The number of the next event.
    pub fn next_seq(&self) -> (r: u64)
        ensures
            r == self@.next_seq,
    {
        self.next_seq
    }

    /// Takes an event of the store in, and hands out what the watchers get: the
    /// event with its number. A deletion gets the object that went away.
    pub fn pump(&mut self, ev: WatchEvent) -> (r: (u64, WatchEvent))
        requires
            old(self).wf(),
            old(self)@.next_seq < u64::MAX,
        ensures
            final(self).wf(),
            final(self)@ == pumped(old(self)@, ev@),
            r.0 == old(self)@.next_seq,
            r.1@ == filled(old(self)@.objects, ev@),
    {
        let ghost was = self@;
        let ghost evv = ev@;
        let seq = self.next_seq;
        self.next_seq = seq + 1;
        self.snapshot_rev = ev.revision();
        let ghost om = self.snapshot.map();
        let out = match ev {
            WatchEvent::Added { key, value, revision } => {
                let v = dup_bytes(&value);
                self.snapshot.insert(key.as_str(), v);
                assert(byte_map(self.snapshot.map()) =~= byte_map(om).insert(key@, value@));
                WatchEvent::Added { key, value, revision }
            },
            WatchEvent::Modified { key, value, revision } => {
                let v = dup_bytes(&value);
                self.snapshot.insert(key.as_str(), v);
                assert(byte_map(self.snapshot.map()) =~= byte_map(om).insert(key@, value@));
                WatchEvent::Modified { key, value, revision }
            },
            WatchEvent::Deleted { key, revision, prev_value } => {
                let gone = self.snapshot.remove(key.as_str());
                assert(byte_map(self.snapshot.map()) =~= byte_map(om).remove(key@));
                let prev = match prev_value {
                    Some(p) => Some(p),
                    None => gone,
                };
                WatchEvent::Deleted { key, revision, prev_value: prev }
            },
            WatchEvent::Bookmark { revision } => WatchEvent::Bookmark { revision },
        };
        assert(out@ == filled(was.objects, evv));
        let kept = out.clone();
        let ghost ring_was = entry_views(self.ring@);
        if self.ring.len() == RING_CAPACITY {
            let gone = self.ring[0].1.revision();
            if gone > self.pump_start_rev {
                self.pump_start_rev = gone;
            }
            let _ = self.ring.pop_front();
            assert(entry_views(self.ring@) =~= ring_was.skip(1));
        }
        let ghost ring_mid = entry_views(self.ring@);
        self.ring.push_back((seq, kept));
        proof {
            let ring_now = entry_views(self.ring@);
            assert(ring_now =~= ring_mid.push((seq, out@)));
            assert(numbered(ring_mid, seq));
            assert forall|i: int, j: int| 0 <= i < j < ring_now.len() implies (
            #[trigger] ring_now[i]).0 < (#[trigger] ring_now[j]).0 by {
                assert(ring_now[i] == ring_mid[i]);
                if j < ring_mid.len() {
                    assert(ring_now[j] == ring_mid[j]);
                }
            }
            assert forall|i: int| 0 <= i < ring_now.len() implies 0 < (#[trigger] ring_now[i]).0
                < self.next_seq by {
                if i < ring_mid.len() {
                    assert(ring_now[i] == ring_mid[i]);
                }
            }
            assert(self@ == pumped(was, evv));
        }
        (seq, out)
    }

    /// Replaces the copy by one that was read anew.
    pub fn reseed(&mut self, snapshot: SortedMap<Vec<u8>>, rev: u64)
        requires
            old(self).wf(),
            snapshot.wf(),
        ensures
            final(self).wf(),
            final(self)@ == (CacheView {
                objects: byte_map(snapshot.map()),
                snapshot_rev: rev,
                ..old(self)@
            }),
    {
        self.snapshot = snapshot;
        self.snapshot_rev = rev;
    }

    /// One page of the copy, in the order of the keys: the objects, the token of
    /// the next page where there is more, and the revision. A token is the last
    /// key of the page before.
    pub fn list(&self, limit: usize, token: Option<&str>) -> (r: (Vec<Vec<u8>>, Option<String>, u64))
        requires
            self.wf(),
        ensures
            keys_of(self.keys(), self@.objects),
            ({
                let rest = keys_after(self.keys(), opt_str(token));
                let page = page_keys(rest, limit as nat);
                &&& r.0@.len() == page.len()
                &&& forall|i: int|
                    0 <= i < page.len() ==> self@.objects.contains_key(#[trigger] page[i])
                        && self@.objects[page[i]] == r.0@[i]@
                &&& opt_text(r.1) == next_token(rest, limit as nat)
                &&& r.2 == self@.snapshot_rev
            }),
    {
        let ghost ks = self.keys();
        let ghost t = opt_str(token);
        let n: usize = self.snapshot.len();
        let mut from: usize = 0;
        match token {
            None => {
                assert(ks.skip(0) =~= ks);
            },
            Some(k) => {
                assert(ks.skip(0) =~= ks);
                while from < n && !is_before(k, self.snapshot.key(from))
                    invariant
                        from <= n,
                        n == ks.len(),
                        ks == self.snapshot.keys(),
                        t == Some(k@),
                        keys_after(ks, t) == keys_after(ks.skip(from as int), t),
                    decreases n - from,
                {
                    proof {
                        assert(ks.skip(from as int)[0] == ks[from as int]);
                        assert(ks.skip(from as int).skip(1) =~= ks.skip(from + 1));
                    }
                    from = from + 1;
                }
                proof {
                    if from < n {
                        assert(ks.skip(from as int)[0] == ks[from as int]);
                    }
                    assert(keys_after(ks, t) == ks.skip(from as int));
                }
            },
        }
        let ghost rest = ks.skip(from as int);
        assert(rest == keys_after(ks, t));
        let to: usize = if limit == 0 || n - from <= limit {
            n
        } else {
            from + limit
        };
        let mut items: Vec<Vec<u8>> = Vec::new();
        let mut i: usize = from;
        while i < to
            invariant
                from <= i <= to <= n,
                n == ks.len(),
                ks == self.snapshot.keys(),
                rest == ks.skip(from as int),
                self.snapshot.wf(),
                items@.len() == i - from,
                forall|j: int|
                    0 <= j < items@.len() ==> self.snapshot.map().contains_key(rest[j])
                        && self.snapshot.map()[rest[j]]@ == (#[trigger] items@[j])@,
            decreases to - i,
        {
            let v = dup_bytes(self.snapshot.value(i));
            assert(rest[i - from] == ks[i as int]);
            items.push(v);
            i = i + 1;
        }
        let next = if to < n && to > 0 {
            Some(self.snapshot.key(to - 1).to_owned())
        } else {
            None
        };
        proof {
            let page = page_keys(rest, limit as nat);
            assert(page.len() == items@.len());
            assert forall|j: int| 0 <= j < page.len() implies self@.objects.contains_key(
                #[trigger] page[j],
            ) && self@.objects[page[j]] == items@[j]@ by {
                assert(page[j] == rest[j]);
                assert(self.snapshot.map()[rest[j]]@ == items@[j]@);
            }
            assert forall|k: Seq<char>| #[trigger]
                self@.objects.contains_key(k) <==> ks.contains(k) by {
                assert(self.snapshot.map().contains_key(k) <==> ks.contains(k));
            }
            if to < n {
                assert(rest[to - from - 1] == ks[to - 1]);
            }
        }
        (items, next, self.snapshot_rev)
    }

    /// The recent events behind a revision, for a watcher who attaches; none
    /// where the cache does not hold all of them, and the store is to be watched
    /// instead.
    pub fn backlog(&self, start_rev: u64) -> (r: Option<Vec<(u64, WatchEvent)>>)
        ensures
            match r {
                Some(v) => start_rev >= self@.pump_start_rev && entry_views(v@) == newer(
                    self@.ring,
                    start_rev,
                ),
                None => start_rev < self@.pump_start_rev,
            },
    {
        if start_rev < self.pump_start_rev {
            return None;
        }
        let ghost rs = entry_views(self.ring@);
        let mut out: Vec<(u64, WatchEvent)> = Vec::new();
        assert(entry_views(out@) =~= Seq::<(u64, EventView)>::empty());
        let mut i: usize = 0;
        while i < self.ring.len()
            invariant
                i <= self.ring@.len(),
                rs == entry_views(self.ring@),
                entry_views(out@) == newer(rs.take(i as int), start_rev),
            decreases self.ring@.len() - i,
        {
            proof {
                assert(rs.take(i + 1).drop_last() =~= rs.take(i as int));
                assert(rs.take(i + 1).last() == rs[i as int]);
            }
            let e = &self.ring[i];
            let ghost was = entry_views(out@);
            if e.1.revision() > start_rev {
                out.push((e.0, e.1.clone()));
                assert(entry_views(out@) =~= was.push(rs[i as int]));
            }
            i = i + 1;
        }
        assert(rs.take(i as int) =~= rs);
        Some(out)
    }
}

/// The number of the last event of a backlog.
pub open spec fn last_number(backlog: Seq<(u64, EventView)>) -> u64 {
    if backlog.len() == 0 {
        0
    } else {
        backlog.last().0
    }
}

/// A live event goes to a watcher: it is behind the backlog and behind the
/// revision.
pub open spec fn is_live(last_seq: u64, start_rev: u64, seq: u64, revision: u64) -> bool {
    seq > last_seq && revision > start_rev
}

/// Whether a live event goes to a watcher who has got the backlog up to a number.
pub fn admits(last_seq: u64, start_rev: u64, seq: u64, ev: &WatchEvent) -> (r: bool)
    ensures
        r == is_live(last_seq, start_rev, seq, ev@.revision()),
{
    seq > last_seq && ev.revision() > start_rev
}

/// What the check of a copy comes to.
#[derive(Debug, Clone, Copy, PartialEq, Eq, Structural)]
pub enum Freshness {
    /// The prefix is no longer cached: the check ends.
    Stop,
    /// Nothing to do.
    Wait,
    /// The store is to be asked for its revision.
    Probe,
}

/// A round of the check of a copy: a watch that has shown nothing for a while may
/// have stalled.
pub fn check_round(cached: bool, idle_secs: u64) -> (r: Freshness)
    ensures
        r == (if !cached {
            Freshness::Stop
        } else if idle_secs < STALL_SECS {
            Freshness::Wait
        } else {
            Freshness::Probe
        }),
{
    if !cached {
        Freshness::Stop
    } else if idle_secs < STALL_SECS {
        Freshness::Wait
    } else {
        Freshness::Probe
    }
}

/// A copy is behind the store and is to be read anew.
pub fn is_behind(cache: &PrefixCache, store_rev: u64) -> (r: bool)
    ensures
        r == (cache@.snapshot_rev < store_rev),
{
    cache.snapshot_rev < store_rev
}

proof fn lemma_keys_after(keys: Seq<Seq<char>>, i: int, j: int)
    requires
        ordered(keys),
        0 <= i <= j < keys.len(),
    ensures
        keys_after(keys.skip(i), Some(keys[j])) == keys.skip(j + 1),
    decreases keys.len() - i,
{
    reveal_with_fuel(keys_after, 3);
    let rest = keys.skip(i);
    assert(rest[0] == keys[i]);
    assert(rest.skip(1) =~= keys.skip(i + 1));
    if i == j {
        lemma_before_irreflexive(keys[j]);
        let next = keys.skip(i + 1);
        if next.len() > 0 {
            assert(next[0] == keys[i + 1]);
            assert(before(keys[i], keys[i + 1]));
        }
    } else {
        assert(before(keys[i], keys[j]));
        if before(keys[j], keys[i]) {
            lemma_before_transitive(keys[i], keys[j], keys[i]);
            lemma_before_irreflexive(keys[i]);
        }
        lemma_keys_after(keys, i + 1, j);
    }
}

proof fn lemma_keys_after_suffix(keys: Seq<Seq<char>>, token: Option<Seq<char>>) -> (i: int)
    ensures
        0 <= i <= keys.len(),
        keys_after(keys, token) == keys.skip(i),
    decreases keys.len(),
{
    match token {
        None => {
            assert(keys.skip(0) =~= keys);
            0
        },
        Some(t) => {
            if keys.len() == 0 || before(t, keys[0]) {
                assert(keys.skip(0) =~= keys);
                0
            } else {
                let j = lemma_keys_after_suffix(keys.skip(1), token);
                assert(keys.skip(1).skip(j) =~= keys.skip(j + 1));
                j + 1
            }
        },
    }
}

/// Pages follow each other without a gap and without overlap: a page and what is
/// behind its token are all that was left.
pub proof fn law_pages_join(keys: Seq<Seq<char>>, token: Option<Seq<char>>, limit: nat)
    requires
        ordered(keys),
    ensures
        ({
            let rest = keys_after(keys, token);
            match next_token(rest, limit) {
                Some(t) => rest == page_keys(rest, limit) + keys_after(keys, Some(t)),
                None => rest == page_keys(rest, limit),
            }
        }),
{
    let rest = keys_after(keys, token);
    let i = lemma_keys_after_suffix(keys, token);
    if limit > 0 && rest.len() > limit {
        let j = i + limit - 1;
        assert(rest[limit - 1] == keys[j]);
        assert(keys.skip(0) =~= keys);
        lemma_keys_after(keys, 0, j);
        assert(rest =~= rest.take(limit as int) + keys.skip(j + 1));
    }
}

/// The keys of all pages from a token on, where each page is asked for with the
/// token of the one before it, up to the page that has none.
pub open spec fn all_pages(keys: Seq<Seq<char>>, token: Option<Seq<char>>, limit: nat) -> Seq<
    Seq<Seq<char>>,
>
    decreases keys_after(keys, token).len(),
    when ordered(keys)
{
    let rest = keys_after(keys, token);
    proof {
        law_pages_join(keys, token, limit);
    }
    match next_token(rest, limit) {
        Some(t) => seq![page_keys(rest, limit)] + all_pages(keys, Some(t), limit),
        None => seq![page_keys(rest, limit)],
    }
}

proof fn lemma_all_pages(keys: Seq<Seq<char>>, token: Option<Seq<char>>, limit: nat)
    requires
        ordered(keys),
        limit > 0,
    ensures
        ({
            let pages = all_pages(keys, token, limit);
            &&& pages.len() > 0
            &&& pages.flatten() == keys_after(keys, token)
            &&& forall|i: int| 0 <= i < pages.len() - 1 ==> (#[trigger] pages[i]).len() == limit
            &&& pages.last().len() <= limit
        }),
    decreases keys_after(keys, token).len(),
{
    let rest = keys_after(keys, token);
    let page = page_keys(rest, limit);
    let pages = all_pages(keys, token, limit);
    law_pages_join(keys, token, limit);
    match next_token(rest, limit) {
        Some(t) => {
            let more = all_pages(keys, Some(t), limit);
            lemma_all_pages(keys, Some(t), limit);
            assert(pages =~= seq![page] + more);
            assert(pages.drop_first() =~= more);
            assert forall|i: int| 0 <= i < pages.len() - 1 implies (#[trigger] pages[i]).len()
                == limit by {
                if i > 0 {
                    assert(pages[i] == more[i - 1]);
                }
            }
            assert(pages.last() == more.last());
        },
        None => {
            assert(pages =~= seq![page]);
            assert(pages.drop_first() =~= Seq::<Seq<Seq<char>>>::empty());
            assert(pages.drop_first().flatten() =~= Seq::<Seq<char>>::empty());
            assert(pages.flatten() =~= page);
        },
    }
}

/// The pages of a copy that does not change are the copy: one after the other, they
/// hold each of its keys once and in order. Every page but the last is full. There
/// is a token exactly where more is left, and it is the last key of its page; a
/// limit of 0 gives everything at once.
pub proof fn law_the_pages_are_the_copy(
    keys: Seq<Seq<char>>,
    objects: Map<Seq<char>, Seq<u8>>,
    token: Option<Seq<char>>,
    limit: nat,
)
    requires
        keys_of(keys, objects),
        limit > 0,
    ensures
        ({
            let pages = all_pages(keys, None, limit);
            &&& pages.flatten() == keys
            &&& forall|k: Seq<char>| #[trigger]
                objects.contains_key(k) <==> pages.flatten().contains(k)
            &&& ordered(pages.flatten())
            &&& forall|i: int| 0 <= i < pages.len() - 1 ==> (#[trigger] pages[i]).len() == limit
            &&& pages.len() > 0 && pages.last().len() <= limit
        }),
        ({
            let rest = keys_after(keys, token);
            let page = page_keys(rest, limit);
            &&& next_token(rest, limit) is Some <==> page.len() < rest.len()
            &&& next_token(rest, limit) matches Some(t) ==> t == page.last()
        }),
        page_keys(keys_after(keys, None), 0) == keys,
        next_token(keys_after(keys, None), 0) is None,
{
    lemma_all_pages(keys, None, limit);
}

/// The events of a ring behind a revision are all of those in the ring.
proof fn lemma_newer(ring: Seq<(u64, EventView)>, start_rev: u64, next: u64)
    requires
        numbered(ring, next),
    ensures
        forall|i: int|
            0 <= i < ring.len() && (#[trigger] ring[i]).1.revision() > start_rev ==> newer(
                ring,
                start_rev,
            ).contains(ring[i]) && ring[i].0 <= last_number(newer(ring, start_rev)),
        forall|i: int|
            0 <= i < newer(ring, start_rev).len() ==> ring.contains(
                #[trigger] newer(ring, start_rev)[i],
            ) && newer(ring, start_rev)[i].1.revision() > start_rev,
    decreases ring.len(),
{
    if ring.len() > 0 {
        let short = ring.drop_last();
        assert(numbered(short, next)) by {
            assert forall|i: int| 0 <= i < short.len() implies 0 < (#[trigger] short[i]).0 < next by {
                assert(short[i] == ring[i]);
            }
            assert forall|i: int, j: int| 0 <= i < j < short.len() implies (
            #[trigger] short[i]).0 < (#[trigger] short[j]).0 by {
                assert(short[i] == ring[i] && short[j] == ring[j]);
            }
        }
        lemma_newer(short, start_rev, next);
        let rest = newer(short, start_rev);
        let all = newer(ring, start_rev);
        assert forall|i: int|
            0 <= i < ring.len() && (#[trigger] ring[i]).1.revision() > start_rev implies all.contains(
            ring[i],
        ) && ring[i].0 <= last_number(all) by {
            if i < short.len() {
                assert(short[i] == ring[i]);
                let k = rest.index_of(short[i]);
                assert(all[k] == ring[i]);
                if ring.last().1.revision() > start_rev {
                    assert(ring[i].0 < ring[ring.len() - 1].0);
                }
            } else {
                assert(all[rest.len() as int] == ring[i]);
            }
        }
        assert forall|i: int| 0 <= i < all.len() implies ring.contains(#[trigger] all[i])
            && all[i].1.revision() > start_rev by {
            if i < rest.len() {
                assert(all[i] == rest[i]);
                let k = short.index_of(rest[i]);
                assert(ring[k] == all[i]);
            } else {
                assert(all[i] == ring[ring.len() - 1]);
            }
        }
    }
}

/// A watcher gets every event once. Who attaches takes what the ring holds behind
/// a revision, then the live events: an event of the ring is in the backlog and
/// is not sent again live, and an event that came later is sent live.
pub proof fn law_each_event_once(ring: Seq<(u64, EventView)>, next: u64, start_rev: u64)
    requires
        numbered(ring, next),
    ensures
        forall|i: int|
            0 <= i < ring.len() && (#[trigger] ring[i]).1.revision() > start_rev ==> newer(
                ring,
                start_rev,
            ).contains(ring[i]) && !is_live(
                last_number(newer(ring, start_rev)),
                start_rev,
                ring[i].0,
                ring[i].1.revision(),
            ),
        forall|i: int|
            0 <= i < newer(ring, start_rev).len() ==> (#[trigger] newer(
                ring,
                start_rev,
            )[i]).1.revision() > start_rev,
        forall|seq: u64, revision: u64|
            seq >= next && seq > 0 && revision > start_rev ==> #[trigger] is_live(
                last_number(newer(ring, start_rev)),
                start_rev,
                seq,
                revision,
            ),
{
    lemma_newer(ring, start_rev, next);
    let all = newer(ring, start_rev);
    if all.len() > 0 {
        assert(ring.contains(all[all.len() - 1]));
        let k = ring.index_of(all[all.len() - 1]);
        assert(ring[k].0 < next);
    }
}

/// The cache after some events, one after the other.
pub open spec fn pumped_all(c: CacheView, events: Seq<EventView>) -> CacheView
    decreases events.len(),
{
    if events.len() == 0 {
        c
    } else {
        pumped(pumped_all(c, events.drop_last()), events.last())
    }
}

/// The entry of the ring for one of some events.
pub open spec fn entry_of(c: CacheView, events: Seq<EventView>, i: int) -> (u64, EventView) {
    ((c.next_seq + i) as u64, filled(pumped_all(c, events.take(i)).objects, events[i]))
}

proof fn lemma_recent_is_held(c: CacheView, events: Seq<EventView>)
    requires
        c.ring.len() == 0,
        c.next_seq + events.len() <= u64::MAX,
    ensures
        pumped_all(c, events).next_seq == c.next_seq + events.len(),
        pumped_all(c, events).ring.len() <= RING_CAPACITY,
        forall|i: int|
            #![trigger entry_of(c, events, i)]
            0 <= i < events.len() && events[i].revision() > pumped_all(c, events).pump_start_rev
                ==> pumped_all(c, events).ring.contains(entry_of(c, events, i)),
    decreases events.len(),
{
    if events.len() > 0 {
        let short = events.drop_last();
        let n = short.len() as int;
        lemma_recent_is_held(c, short);
        let was = pumped_all(c, short);
        let now = pumped_all(c, events);
        assert(events.take(n) =~= short);
        assert(now.ring.last() == entry_of(c, events, n));
        assert forall|i: int|
            #![trigger entry_of(c, events, i)]
            0 <= i < events.len() && events[i].revision() > now.pump_start_rev implies now.ring.contains(
            entry_of(c, events, i),
        ) by {
            let e = entry_of(c, events, i);
            if i < n {
                assert(short.take(i) =~= events.take(i));
                assert(e == entry_of(c, short, i));
                assert(was.ring.contains(e));
                let k = was.ring.index_of(e);
                if was.ring.len() == RING_CAPACITY {
                    assert(k > 0);
                    assert(now.ring[k - 1] == e);
                } else {
                    assert(now.ring[k] == e);
                }
            } else {
                assert(now.ring[now.ring.len() - 1] == e);
            }
        }
    }
}

proof fn lemma_newer_has(ring: Seq<(u64, EventView)>, start_rev: u64, e: (u64, EventView))
    requires
        ring.contains(e),
        e.1.revision() > start_rev,
    ensures
        newer(ring, start_rev).contains(e),
    decreases ring.len(),
{
    let rest = newer(ring.drop_last(), start_rev);
    let all = newer(ring, start_rev);
    if ring.last() == e {
        assert(all[rest.len() as int] == e);
    } else {
        let k = ring.index_of(e);
        assert(ring.drop_last()[k] == e);
        lemma_newer_has(ring.drop_last(), start_rev, e);
        let j = rest.index_of(e);
        assert(all[j] == e);
    }
}

/// A watcher whom the cache serves misses nothing: whatever events have come since
/// the cache began, one whose revision is behind the watcher's is in the backlog,
/// under its number. Where the ring has let such an event go, the cache does not
/// serve the watcher.
pub proof fn law_nothing_recent_is_missed(
    c: CacheView,
    events: Seq<EventView>,
    start_rev: u64,
    i: int,
)
    requires
        c.ring.len() == 0,
        c.next_seq + events.len() <= u64::MAX,
        start_rev >= pumped_all(c, events).pump_start_rev,
        0 <= i < events.len(),
        events[i].revision() > start_rev,
    ensures
        newer(pumped_all(c, events).ring, start_rev).contains(entry_of(c, events, i)),
        entry_of(c, events, i).0 == c.next_seq + i,
        entry_of(c, events, i).1.revision() == events[i].revision(),
{
    lemma_recent_is_held(c, events);
    lemma_newer_has(pumped_all(c, events).ring, start_rev, entry_of(c, events, i));
}

/// A deletion that the cache sees carries the object as it was, where the copy
/// holds it, and the copy holds it no longer.
pub proof fn law_deletions_carry_the_object(c: CacheView, key: Seq<char>, revision: u64)
    requires
        c.objects.contains_key(key),
    ensures
        filled(c.objects, EventView::Deleted { key, revision, prev_value: None })
            == (EventView::Deleted { key, revision, prev_value: Some(c.objects[key]) }),
        !pumped(
            c,
            EventView::Deleted { key, revision, prev_value: None },
        ).objects.contains_key(key),
{
}

/// Who attaches hears of every event after the revision that it has, in order, and of no
/// other.
pub proof fn law_the_backlog_is_what_is_newer(ring: Seq<(u64, EventView)>, start_rev: u64)
    ensures
        newer(ring, start_rev) == ring.filter(|e: (u64, EventView)| e.1.revision() > start_rev),
    decreases ring.len(),
{
    reveal(Seq::filter);
    if ring.len() > 0 {
        law_the_backlog_is_what_is_newer(ring.drop_last(), start_rev);
    }
}

/// The copy follows the events: what is written is in it as it was written, what is deleted
/// is not, nothing else changes, and the copy has the revision of the last.
pub proof fn law_the_copy_follows_the_events(
    c: CacheView,
    key: Seq<char>,
    value: Seq<u8>,
    revision: u64,
    prev: Option<Seq<u8>>,
    other: Seq<char>,
)
    requires
        other != key,
    ensures
        forall|e: EventView|
            e == (EventView::Added { key, value, revision }) || e == (EventView::Modified {
                key,
                value,
                revision,
            }) || e == (EventView::Deleted { key, revision, prev_value: prev }) || e == (
            EventView::Bookmark { revision }) ==> {
                let after = #[trigger] pumped(c, e);
                &&& after.snapshot_rev == revision
                &&& after.objects.contains_key(other) == c.objects.contains_key(other)
                &&& c.objects.contains_key(other) ==> after.objects[other] == c.objects[other]
                &&& (e is Added || e is Modified) ==> after.objects.contains_key(key)
                    && after.objects[key] == value
                &&& e is Deleted ==> !after.objects.contains_key(key)
                &&& e is Bookmark ==> after.objects == c.objects
                &&& after.ring.len() > 0
                &&& after.ring.last().0 == c.next_seq
                &&& after.ring.last().1.revision() == revision
                &&& !(e is Deleted) ==> after.ring.last().1 == e
            },
{
}

/// As many as a thousand and some events are kept, the last ones; where the first has to go,
/// the cache no longer answers for what is before it.
pub proof fn law_the_last_events_are_kept(c: CacheView, ev: EventView, i: int)
    requires
        0 <= i < c.ring.len() <= 1024,
        c.ring.len() < 1024 || i > 0,
    ensures
        pumped(c, ev).ring.len() <= 1024,
        pumped(c, ev).ring.contains(c.ring[i]),
        c.ring.len() == 1024 ==> pumped(c, ev).pump_start_rev >= c.ring[0].1.revision(),
        c.ring.len() < 1024 ==> pumped(c, ev).pump_start_rev == c.pump_start_rev,
        pumped(c, ev).pump_start_rev >= c.pump_start_rev,
{
    if c.ring.len() == 1024 {
        assert(pumped(c, ev).ring[i - 1] == c.ring[i]);
    } else {
        assert(pumped(c, ev).ring[i] == c.ring[i]);
    }
}

/// A page begins behind its token: it holds keys that come after it alone, and with those of
/// the pages behind it all of them.
pub proof fn law_a_page_begins_behind_its_token(
    keys: Seq<Seq<char>>,
    t: Seq<char>,
    key: Seq<char>,
)
    requires
        ordered(keys),
    ensures
        keys_after(keys, Some(t)).contains(key) <==> keys.contains(key) && before(t, key),
        keys_after(keys, None) == keys,
    decreases keys.len(),
{
    if keys.len() > 0 {
        if before(t, keys[0]) {
            if keys.contains(key) {
                let i = keys.index_of(key);
                if i > 0 {
                    lemma_before_transitive(t, keys[0], keys[i]);
                }
            }
        } else {
            let rest = keys.skip(1);
            assert forall|i: int, j: int| 0 <= i < j < rest.len() implies before(
                #[trigger] rest[i],
                #[trigger] rest[j],
            ) by {
                assert(before(keys[i + 1], keys[j + 1]));
            }
            law_a_page_begins_behind_its_token(rest, t, key);
            if rest.contains(key) {
                let i = rest.index_of(key);
                assert(keys[i + 1] == key);
            }
            if keys.contains(key) && before(t, key) {
                let i = keys.index_of(key);
                assert(i > 0);
                assert(rest[i - 1] == key);
            }
        }
    }
}

/// A page holds no more than its limit, from the first on, and a token exactly where there is
/// more; without a limit it holds everything.
pub proof fn law_a_page_is_as_long_as_asked(rest: Seq<Seq<char>>, limit: nat, i: int)
    requires
        0 <= i < page_keys(rest, limit).len(),
    ensures
        limit > 0 ==> page_keys(rest, limit).len() <= limit,
        limit == 0 ==> page_keys(rest, limit) == rest,
        page_keys(rest, limit)[i] == rest[i],
        page_keys(rest, limit).len() == rest.len() || page_keys(rest, limit).len() == limit,
        next_token(rest, limit) is None <==> page_keys(rest, limit).len() == rest.len(),
        next_token(rest, limit) is Some ==> next_token(rest, limit)->0 == page_keys(
            rest,
            limit,
        ).last(),
{
}

/// Who attached hears of an event that comes later once, and of one that it has not.
pub proof fn law_what_is_live(last_seq: u64, start_rev: u64, seq: u64, revision: u64)
    ensures
        is_live(last_seq, start_rev, seq, revision) <==> seq > last_seq && revision > start_rev,
{
}

/// A copy that is seeded holds each key with the last value that was read for it.
pub proof fn law_a_seed_is_what_was_read(
    m: Map<Seq<char>, Seq<u8>>,
    items: Seq<(Seq<char>, Seq<u8>)>,
    key: Seq<char>,
    value: Seq<u8>,
    other: Seq<char>,
)
    requires
        other != key,
    ensures
        with_items(m, items.push((key, value))).contains_key(key),
        with_items(m, items.push((key, value)))[key] == value,
        with_items(m, items.push((key, value))).contains_key(other) == with_items(
            m,
            items,
        ).contains_key(other),
        with_items(m, items).contains_key(other) ==> with_items(m, items.push((key, value)))[other]
            == with_items(m, items)[other],
        with_items(m, Seq::empty()) == m,
{
    assert(items.push((key, value)).drop_last() =~= items);
}

} // verus!
