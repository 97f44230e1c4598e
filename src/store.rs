//! The tracking store: one record per match key, changed only through the
//! tracker's cycle operations.
use vstd::prelude::*;
use crate::model::{well_shaped, MatchDetail, MatchRecord, RosterEntry};
use crate::plan::{
    after_poll, lemma_live_key_step, live_key, start_view, starts_for, update_view, updates_for,
    LiveUpdate, PollPlan, StartNotice,
};
use crate::render::{
    fields_show, final_text, footer_text, has_score_fields, render_final, render_footer, render_live,
    scores_in_team_order, ScoreFields,
};
use crate::roster::match_roster;
use crate::text::Labels;

verus! {

/// What the tracker keeps of a match that it follows.
#[derive(Clone, Copy)]
pub struct TrackedMatch {
    /// The live post that this match is rendered into.
    pub message_ref: u64,
    /// Aging cycles since the match was first seen.
    pub age_ticks: u32,
    /// Whether the match still appeared in the ongoing list during this poll cycle.
    pub seen_this_cycle: bool,
    /// The chat account of the tracked player.
    pub owner: u64,
}

/// `t` with its seen flag set to `seen`.
pub open spec fn with_seen(t: TrackedMatch, seen: bool) -> TrackedMatch {
    TrackedMatch {
        message_ref: t.message_ref,
        age_ticks: t.age_ticks,
        seen_this_cycle: seen,
        owner: t.owner,
    }
}

/// `t` after one aging cycle: one tick older and not seen yet.
pub open spec fn aged(t: TrackedMatch) -> TrackedMatch {
    TrackedMatch {
        message_ref: t.message_ref,
        age_ticks: (t.age_ticks + 1) as u32,
        seen_this_cycle: false,
        owner: t.owner,
    }
}

/// The record of a match that has just been posted.
pub open spec fn fresh(message_ref: u64, owner: u64) -> TrackedMatch {
    TrackedMatch { message_ref, age_ticks: 0, seen_this_cycle: true, owner }
}

/// The store after an aging cycle: records below the ceiling age by one tick,
/// the others are gone.
pub open spec fn after_aging(m: Map<Seq<char>, TrackedMatch>, ceiling: u32) -> Map<
    Seq<char>,
    TrackedMatch,
> {
    Map::new(|k: Seq<char>| m.contains_key(k) && m[k].age_ticks < ceiling, |k: Seq<char>| aged(m[k]))
}

/// The store after a start post for `key`: a fresh record, unless `key` is tracked already.
pub open spec fn after_start(
    m: Map<Seq<char>, TrackedMatch>,
    key: Seq<char>,
    message_ref: u64,
    owner: u64,
) -> Map<Seq<char>, TrackedMatch> {
    if m.contains_key(key) {
        m
    } else {
        m.insert(key, fresh(message_ref, owner))
    }
}

/// The store after the final post for `key`: the record goes, if it is tracked and was
/// not seen in the ongoing list this cycle.
pub open spec fn after_resolution(m: Map<Seq<char>, TrackedMatch>, key: Seq<char>) -> Map<
    Seq<char>,
    TrackedMatch,
> {
    if m.contains_key(key) && !m[key].seen_this_cycle {
        m.remove(key)
    } else {
        m
    }
}

/// `keys` holds a string whose text is `k`.
pub open spec fn lists_key(keys: Seq<String>, k: Seq<char>) -> bool {
    exists|e: int| 0 <= e < keys.len() && keys[e]@ == k
}

/// The final render of a finished match, into the live post of its record.
pub struct FinalPost {
    pub message_ref: u64,
    pub owner: u64,
    pub description: String,
    pub footer: String,
    pub scores: Option<ScoreFields>,
}

/// Tracking records keyed by match key, at most one per key.
pub struct Store {
    keys: Vec<String>,
    tracks: Vec<TrackedMatch>,
}

impl View for Store {
    type V = Map<Seq<char>, TrackedMatch>;

    closed spec fn view(&self) -> Map<Seq<char>, TrackedMatch> {
        Map::new(
            |k: Seq<char>| exists|i: int| 0 <= i < self.keys@.len() && self.keys@[i]@ == k,
            |k: Seq<char>| self.tracks@[self.index_of(k)],
        )
    }
}

impl Store {
    closed spec fn expired_within(&self, n: int, k: Seq<char>, ceiling: u32) -> bool {
        exists|a: int|
            0 <= a < n && self.keys@[a]@ == k && self.tracks@[a].age_ticks >= ceiling
    }

    closed spec fn index_of(&self, k: Seq<char>) -> int {
        choose|i: int| 0 <= i < self.keys@.len() && self.keys@[i]@ == k
    }

    /// Both columns have one row per record, and no two records share a key.
    pub closed spec fn wf(&self) -> bool {
        &&& self.keys@.len() == self.tracks@.len()
        &&& forall|i: int, j: int|
            0 <= i < j < self.keys@.len() ==> self.keys@[i]@ != self.keys@[j]@
    }

    proof fn lemma_view_at(&self, i: int)
        requires
            self.wf(),
            0 <= i < self.keys@.len(),
        ensures
            self@.contains_key(self.keys@[i]@),
            self@[self.keys@[i]@] == self.tracks@[i],
    {
        let k = self.keys@[i]@;
        assert(exists|j: int| 0 <= j < self.keys@.len() && self.keys@[j]@ == k);
        let j = self.index_of(k);
        if j < i {
            assert(self.keys@[j]@ != self.keys@[i]@);
        }
        if j > i {
            assert(self.keys@[i]@ != self.keys@[j]@);
        }
    }

    /// An empty store.
    pub fn new() -> (s: Store)
        ensures
            s.wf(),
            s@ == Map::<Seq<char>, TrackedMatch>::empty(),
    {
        let s = Store { keys: Vec::new(), tracks: Vec::new() };
        assert(s@ =~= Map::<Seq<char>, TrackedMatch>::empty());
        s
    }

    fn find(&self, key: &String) -> (r: Option<usize>)
        requires
            self.wf(),
        ensures
            match r {
                Some(i) => i < self.keys@.len() && self.keys@[i as int]@ == key@,
                None => !self@.contains_key(key@),
            },
    {
        let mut i: usize = 0;
        while i < self.keys.len()
            invariant
                i <= self.keys@.len(),
                forall|j: int| 0 <= j < i ==> self.keys@[j]@ != key@,
            decreases self.keys@.len() - i,
        {
            if self.keys[i] == *key {
                return Some(i);
            }
            i = i + 1;
        }
        None
    }

    /// The record of `key`, if it is tracked.
    pub fn get(&self, key: &String) -> (r: Option<TrackedMatch>)
        requires
            self.wf(),
        ensures
            r == (if self@.contains_key(key@) {
                Some(self@[key@])
            } else {
                None
            }),
    {
        match self.find(key) {
            Some(i) => {
                proof {
                    self.lemma_view_at(i as int);
                }
                Some(self.tracks[i])
            },
            None => None,
        }
    }

    /// The number of tracked matches.
    pub fn len(&self) -> (r: usize)
        requires
            self.wf(),
        ensures
            r == self@.len(),
    {
        proof {
            self.lemma_len();
        }
        self.keys.len()
    }

    proof fn lemma_len(&self)
        requires
            self.wf(),
        ensures
            self@.len() == self.keys@.len(),
            self@.dom() == self.keys@.map_values(|s: String| s@).to_set(),
        decreases self.keys@.len(),
    {
        let ks = self.keys@.map_values(|s: String| s@);
        assert(self@.dom() =~= ks.to_set()) by {
            assert forall|k: Seq<char>| self@.dom().contains(k) implies ks.to_set().contains(k) by {
                let i = self.index_of(k);
                assert(ks[i] == k);
            }
            assert forall|k: Seq<char>| ks.to_set().contains(k) implies self@.dom().contains(k) by {
                let i = choose|i: int| 0 <= i < ks.len() && ks[i] == k;
                assert(self.keys@[i]@ == k);
            }
        }
        assert(ks.no_duplicates()) by {
            assert forall|i: int, j: int| 0 <= i < ks.len() && 0 <= j < ks.len() && i != j implies ks[i]
                != ks[j] by {
                if i < j {
                    assert(self.keys@[i]@ != self.keys@[j]@);
                } else {
                    assert(self.keys@[j]@ != self.keys@[i]@);
                }
            }
        }
        ks.unique_seq_to_set();
    }

    /// Records a match whose start has been posted as `message_ref`: a fresh record,
    /// zero ticks old and seen this cycle. A key that is tracked already keeps its record;
    /// the result tells whether the record was added.
    pub fn record_start(&mut self, key: String, message_ref: u64, owner: u64) -> (added: bool)
        requires
            old(self).wf(),
        ensures
            final(self).wf(),
            added == !old(self)@.contains_key(key@),
            final(self)@ == after_start(old(self)@, key@, message_ref, owner),
    {
        match self.find(&key) {
            Some(i) => {
                proof {
                    self.lemma_view_at(i as int);
                }
                false
            },
            None => {
                let ghost k = key@;
                let ghost before = *self;
                let t = TrackedMatch { message_ref, age_ticks: 0, seen_this_cycle: true, owner };
                self.keys.push(key);
                self.tracks.push(t);
                proof {
                    let n = before.keys@.len() as int;
                    assert forall|i: int, j: int| 0 <= i < j < self.keys@.len() implies self.keys@[i]@
                        != self.keys@[j]@ by {
                        if j == n {
                            assert(self.keys@[i] == before.keys@[i]);
                            before.lemma_view_at(i);
                        } else {
                            assert(self.keys@[i] == before.keys@[i]);
                            assert(self.keys@[j] == before.keys@[j]);
                        }
                    }
                    let expected = before@.insert(k, fresh(message_ref, owner));
                    assert forall|q: Seq<char>| #[trigger] self@.contains_key(q) <==> expected.contains_key(q) by {
                        if self@.contains_key(q) {
                            let i = choose|i: int| 0 <= i < self.keys@.len() && self.keys@[i]@ == q;
                            if i < n {
                                assert(before.keys@[i]@ == q);
                            }
                        }
                        if before@.contains_key(q) {
                            let i = choose|i: int| 0 <= i < before.keys@.len() && before.keys@[i]@ == q;
                            assert(self.keys@[i]@ == q);
                        }
                        if q == k {
                            assert(self.keys@[n]@ == q);
                        }
                    }
                    assert forall|q: Seq<char>| #[trigger] self@.contains_key(q) implies self@[q] == expected[q] by {
                        let i = choose|i: int| 0 <= i < self.keys@.len() && self.keys@[i]@ == q;
                        self.lemma_view_at(i);
                        if i < n {
                            before.lemma_view_at(i);
                            assert(before.keys@[i] == self.keys@[i]);
                        }
                    }
                    assert(self@ =~= expected);
                }
                true
            },
        }
    }

    /// Drops the record of `key` once its final post has been made: only a tracked match
    /// that was not seen in the ongoing list this cycle goes. The result tells whether
    /// the record was dropped.
    pub fn resolve(&mut self, key: &String) -> (removed: bool)
        requires
            old(self).wf(),
        ensures
            final(self).wf(),
            removed == (old(self)@.contains_key(key@) && !old(self)@[key@].seen_this_cycle),
            final(self)@ == after_resolution(old(self)@, key@),
    {
        let i = match self.find(key) {
            Some(i) => i,
            None => {
                return false;
            },
        };
        proof {
            self.lemma_view_at(i as int);
        }
        if self.tracks[i].seen_this_cycle {
            return false;
        }
        let ghost before = *self;
        let ghost k = key@;
        self.keys.remove(i);
        self.tracks.remove(i);
        proof {
            let ii = i as int;
            assert forall|a: int, b: int| 0 <= a < b < self.keys@.len() implies self.keys@[a]@
                != self.keys@[b]@ by {
                let a0 = if a < ii { a } else { a + 1 };
                let b0 = if b < ii { b } else { b + 1 };
                assert(self.keys@[a] == before.keys@[a0]);
                assert(self.keys@[b] == before.keys@[b0]);
            }
            let expected = before@.remove(k);
            assert forall|q: Seq<char>| #[trigger] self@.contains_key(q) <==> expected.contains_key(q) by {
                if self@.contains_key(q) {
                    let a = choose|a: int| 0 <= a < self.keys@.len() && self.keys@[a]@ == q;
                    let a0 = if a < ii { a } else { a + 1 };
                    assert(self.keys@[a] == before.keys@[a0]);
                    assert(before.keys@[a0]@ != before.keys@[ii]@);
                    before.lemma_view_at(a0);
                }
                if expected.contains_key(q) {
                    let a0 = choose|a: int| 0 <= a < before.keys@.len() && before.keys@[a]@ == q;
                    assert(a0 != ii);
                    let a = if a0 < ii { a0 } else { a0 - 1 };
                    assert(self.keys@[a] == before.keys@[a0]);
                }
            }
            assert forall|q: Seq<char>| #[trigger] self@.contains_key(q) implies self@[q] == expected[q] by {
                let a = choose|a: int| 0 <= a < self.keys@.len() && self.keys@[a]@ == q;
                let a0 = if a < ii { a } else { a + 1 };
                assert(self.keys@[a] == before.keys@[a0]);
                self.lemma_view_at(a);
                before.lemma_view_at(a0);
            }
            assert(self@ =~= expected);
        }
        true
    }

    /// One aging cycle: every record below `ceiling` ticks grows one tick older and is
    /// marked unseen; every other record is evicted. Returns the evicted keys.
    pub fn age(&mut self, ceiling: u32) -> (evicted: Vec<String>)
        requires
            old(self).wf(),
        ensures
            final(self).wf(),
            final(self)@ == after_aging(old(self)@, ceiling),
            forall|k: Seq<char>|
                lists_key(evicted@, k) <==> (old(
                    self,
                )@.contains_key(k) && old(self)@[k].age_ticks >= ceiling),
    {
        let ghost before = *self;
        let mut keys: Vec<String> = Vec::new();
        let mut tracks: Vec<TrackedMatch> = Vec::new();
        let mut evicted: Vec<String> = Vec::new();
        let ghost mut src: Seq<int> = Seq::empty();
        let mut i: usize = 0;
        while i < self.keys.len()
            invariant
                *self == before,
                before.wf(),
                i <= before.keys@.len(),
                keys@.len() == tracks@.len(),
                src.len() == keys@.len(),
                forall|n: int|
                    0 <= n < src.len() ==> {
                        &&& 0 <= #[trigger] src[n] < i
                        &&& keys@[n]@ == before.keys@[src[n]]@
                        &&& before.tracks@[src[n]].age_ticks < ceiling
                        &&& tracks@[n] == aged(before.tracks@[src[n]])
                    },
                forall|n: int, p: int| 0 <= n < p < src.len() ==> src[n] < src[p],
                forall|a: int|
                    0 <= a < i && before.tracks@[a].age_ticks < ceiling ==> exists|n: int|
                        0 <= n < src.len() && #[trigger] src[n] == a,
                forall|k: Seq<char>| lists_key(evicted@, k) <==> before.expired_within(i as int, k, ceiling),
            decreases before.keys@.len() - i,
        {
            let t = self.tracks[i];
            let ghost old_evicted = evicted@;
            let ghost old_src = src;
            let ghost ii = i as int;
            if t.age_ticks < ceiling {
                keys.push(self.keys[i].clone());
                tracks.push(
                    TrackedMatch {
                        message_ref: t.message_ref,
                        age_ticks: t.age_ticks + 1,
                        seen_this_cycle: false,
                        owner: t.owner,
                    },
                );
                proof {
                    src = src.push(ii);
                }
            } else {
                evicted.push(self.keys[i].clone());
            }
            proof {
                assert forall|k: Seq<char>| lists_key(evicted@, k) <==> before.expired_within(ii + 1, k, ceiling) by {
                    assert(lists_key(old_evicted, k) <==> before.expired_within(ii, k, ceiling));
                    if lists_key(evicted@, k) {
                        let e = choose|e: int| 0 <= e < evicted@.len() && evicted@[e]@ == k;
                        if e < old_evicted.len() {
                            assert(old_evicted[e] == evicted@[e]);
                            assert(lists_key(old_evicted, k));
                            let a = choose|a: int|
                                0 <= a < ii && before.keys@[a]@ == k && before.tracks@[a].age_ticks >= ceiling;
                            assert(0 <= a < ii + 1);
                        } else {
                            assert(before.keys@[ii]@ == k && before.tracks@[ii].age_ticks >= ceiling);
                        }
                    }
                    if before.expired_within(ii + 1, k, ceiling) {
                        let a = choose|a: int|
                            0 <= a < ii + 1 && before.keys@[a]@ == k && before.tracks@[a].age_ticks >= ceiling;
                        if a < ii {
                            assert(before.expired_within(ii, k, ceiling));
                            let e = choose|e: int| 0 <= e < old_evicted.len() && old_evicted[e]@ == k;
                            assert(evicted@[e] == old_evicted[e]);
                        } else {
                            assert(evicted@[old_evicted.len() as int]@ == k);
                        }
                    }
                }
                assert forall|a: int|
                    0 <= a < ii + 1 && before.tracks@[a].age_ticks < ceiling implies exists|n: int|
                        0 <= n < src.len() && #[trigger] src[n] == a by {
                    if a == ii {
                        assert(src[src.len() - 1] == a);
                    } else {
                        let n = choose|n: int| 0 <= n < old_src.len() && #[trigger] old_src[n] == a;
                        assert(src[n] == a);
                    }
                }
            }
            i = i + 1;
        }
        self.keys = keys;
        self.tracks = tracks;
        proof {
            assert forall|a: int, b: int| 0 <= a < b < self.keys@.len() implies self.keys@[a]@
                != self.keys@[b]@ by {
                assert(src[a] < src[b]);
                assert(self.keys@[a]@ == before.keys@[src[a]]@);
                assert(self.keys@[b]@ == before.keys@[src[b]]@);
            }
            let expected = after_aging(before@, ceiling);
            assert forall|q: Seq<char>| #[trigger] self@.contains_key(q) <==> expected.contains_key(q) by {
                if self@.contains_key(q) {
                    let n = choose|n: int| 0 <= n < self.keys@.len() && self.keys@[n]@ == q;
                    assert(0 <= src[n]);
                    before.lemma_view_at(src[n]);
                }
                if expected.contains_key(q) {
                    let a = choose|a: int| 0 <= a < before.keys@.len() && before.keys@[a]@ == q;
                    before.lemma_view_at(a);
                    let n = choose|n: int| 0 <= n < src.len() && #[trigger] src[n] == a;
                    assert(self.keys@[n]@ == q);
                }
            }
            assert forall|q: Seq<char>| #[trigger] self@.contains_key(q) implies self@[q] == expected[q] by {
                let n = choose|n: int| 0 <= n < self.keys@.len() && self.keys@[n]@ == q;
                assert(0 <= src[n]);
                self.lemma_view_at(n);
                before.lemma_view_at(src[n]);
            }
            assert(self@ =~= expected);
            assert forall|k: Seq<char>|
                lists_key(evicted@, k) <==> (
                before@.contains_key(k) && before@[k].age_ticks >= ceiling) by {
                if before@.contains_key(k) {
                    let a = choose|a: int| 0 <= a < before.keys@.len() && before.keys@[a]@ == k;
                    before.lemma_view_at(a);
                }
                if before.expired_within(before.keys@.len() as int, k, ceiling) {
                    let a = choose|a: int|
                        0 <= a < before.keys@.len() && before.keys@[a]@ == k && before.tracks@[a].age_ticks
                            >= ceiling;
                    before.lemma_view_at(a);
                }
            }
        }
        evicted
    }

    closed spec fn unseen_within(&self, n: int, k: Seq<char>) -> bool {
        exists|a: int| 0 <= a < n && self.keys@[a]@ == k && !self.tracks@[a].seen_this_cycle
    }

    fn clear_seen(&mut self)
        requires
            old(self).wf(),
        ensures
            final(self).wf(),
            final(self).keys@ == old(self).keys@,
            final(self).tracks@.len() == old(self).tracks@.len(),
            forall|a: int|
                0 <= a < old(self).tracks@.len() ==> final(self).tracks@[a] == with_seen(
                    old(self).tracks@[a],
                    false,
                ),
    {
        let ghost before = *self;
        let mut i: usize = 0;
        while i < self.tracks.len()
            invariant
                self.keys@ == before.keys@,
                self.tracks@.len() == before.tracks@.len(),
                before.wf(),
                i <= self.tracks@.len(),
                forall|a: int| 0 <= a < i ==> self.tracks@[a] == with_seen(before.tracks@[a], false),
                forall|a: int| i <= a < self.tracks@.len() ==> self.tracks@[a] == before.tracks@[a],
            decreases self.tracks@.len() - i,
        {
            let t = self.tracks[i];
            self.tracks[i] = TrackedMatch {
                message_ref: t.message_ref,
                age_ticks: t.age_ticks,
                seen_this_cycle: false,
                owner: t.owner,
            };
            i = i + 1;
        }
    }

    fn unseen_keys(&self) -> (pending: Vec<String>)
        requires
            self.wf(),
        ensures
            forall|k: Seq<char>|
                lists_key(pending@, k) <==> (self@.contains_key(k) && !self@[k].seen_this_cycle),
    {
        let mut pending: Vec<String> = Vec::new();
        let mut i: usize = 0;
        while i < self.keys.len()
            invariant
                self.wf(),
                i <= self.keys@.len(),
                forall|k: Seq<char>| lists_key(pending@, k) <==> self.unseen_within(i as int, k),
            decreases self.keys@.len() - i,
        {
            let ghost before = pending@;
            let ghost ii = i as int;
            if !self.tracks[i].seen_this_cycle {
                pending.push(self.keys[i].clone());
            }
            proof {
                assert forall|k: Seq<char>| lists_key(pending@, k) <==> self.unseen_within(ii + 1, k) by {
                    assert(lists_key(before, k) <==> self.unseen_within(ii, k));
                    if lists_key(pending@, k) {
                        let e = choose|e: int| 0 <= e < pending@.len() && pending@[e]@ == k;
                        if e < before.len() {
                            assert(before[e] == pending@[e]);
                            let a = choose|a: int|
                                0 <= a < ii && self.keys@[a]@ == k && !self.tracks@[a].seen_this_cycle;
                            assert(0 <= a < ii + 1);
                        } else {
                            assert(self.keys@[ii]@ == k && !self.tracks@[ii].seen_this_cycle);
                        }
                    }
                    if self.unseen_within(ii + 1, k) {
                        let a = choose|a: int|
                            0 <= a < ii + 1 && self.keys@[a]@ == k && !self.tracks@[a].seen_this_cycle;
                        if a < ii {
                            assert(self.unseen_within(ii, k));
                            let e = choose|e: int| 0 <= e < before.len() && before[e]@ == k;
                            assert(pending@[e] == before[e]);
                        } else {
                            assert(pending@[before.len() as int]@ == k);
                        }
                    }
                }
            }
            i = i + 1;
        }
        proof {
            assert forall|k: Seq<char>|
                lists_key(pending@, k) <==> (self@.contains_key(k) && !self@[k].seen_this_cycle) by {
                if self@.contains_key(k) {
                    let a = choose|a: int| 0 <= a < self.keys@.len() && self.keys@[a]@ == k;
                    self.lemma_view_at(a);
                }
                if self.unseen_within(self.keys@.len() as int, k) {
                    let a = choose|a: int|
                        0 <= a < self.keys@.len() && self.keys@[a]@ == k && !self.tracks@[a].seen_this_cycle;
                    self.lemma_view_at(a);
                }
            }
        }
        pending
    }

    /// One poll cycle over the ongoing list. With an empty list nothing changes and
    /// nothing is asked. Otherwise every record's seen flag is recomputed from the list,
    /// each eligible match gets a start notice (when new) or a live update (when tracked),
    /// and the tracked matches no longer in the list are returned as pending.
    pub fn check(&mut self, ongoing: &Vec<MatchRecord>, roster: &Vec<RosterEntry>, labels: &Labels) -> (plan:
        PollPlan)
        requires
            old(self).wf(),
        ensures
            final(self).wf(),
            final(self)@ == after_poll(old(self)@, ongoing@, roster@),
            plan.starts@.map_values(|n: StartNotice| start_view(n)) == starts_for(
                old(self)@,
                ongoing@,
                roster@,
                labels,
            ),
            plan.updates@.map_values(|u: LiveUpdate| update_view(u)) == updates_for(
                old(self)@,
                ongoing@,
                roster@,
                labels,
            ),
            ongoing@.len() == 0 ==> plan.pending@.len() == 0,
            ongoing@.len() > 0 ==> forall|k: Seq<char>|
                lists_key(plan.pending@, k) <==> (final(self)@.contains_key(k)
                    && !final(self)@[k].seen_this_cycle),
    {
        let mut starts: Vec<StartNotice> = Vec::new();
        let mut updates: Vec<LiveUpdate> = Vec::new();
        if ongoing.len() == 0 {
            proof {
                assert(starts@.map_values(|n: StartNotice| start_view(n)) =~= starts_for(
                    self@,
                    ongoing@,
                    roster@,
                    labels,
                ));
                assert(updates@.map_values(|u: LiveUpdate| update_view(u)) =~= updates_for(
                    self@,
                    ongoing@,
                    roster@,
                    labels,
                ));
            }
            return PollPlan { starts, updates, pending: Vec::new() };
        }
        let ghost before = *self;
        self.clear_seen();
        let mut j: usize = 0;
        while j < ongoing.len()
            invariant
                before.wf(),
                self.wf(),
                self.keys@ == before.keys@,
                self.tracks@.len() == before.tracks@.len(),
                j <= ongoing@.len(),
                forall|a: int|
                    0 <= a < self.tracks@.len() ==> self.tracks@[a] == with_seen(
                        before.tracks@[a],
                        live_key(ongoing@.take(j as int), roster@, before.keys@[a]@),
                    ),
                starts@.map_values(|n: StartNotice| start_view(n)) == starts_for(
                    before@,
                    ongoing@.take(j as int),
                    roster@,
                    labels,
                ),
                updates@.map_values(|u: LiveUpdate| update_view(u)) == updates_for(
                    before@,
                    ongoing@.take(j as int),
                    roster@,
                    labels,
                ),
            decreases ongoing@.len() - j,
        {
            let ghost jj = j as int;
            let ghost tracks0 = self.tracks@;
            let ghost starts0 = starts@;
            let ghost updates0 = updates@;
            let rec = &ongoing[j];
            proof {
                assert(ongoing@.take(jj + 1).drop_last() =~= ongoing@.take(jj));
                assert(ongoing@.take(jj + 1).last() == ongoing@[jj]);
                assert forall|k: Seq<char>| #[trigger] self@.contains_key(k) == before@.contains_key(k) by {}
            }
            let ghost found: int = -1;
            match match_roster(rec, roster) {
                Some((pi, _)) => {
                    let description = render_live(rec, labels);
                    match self.find(&rec.start_time) {
                        Some(i) => {
                            let t = self.tracks[i];
                            self.tracks[i] = TrackedMatch {
                                message_ref: t.message_ref,
                                age_ticks: t.age_ticks,
                                seen_this_cycle: true,
                                owner: t.owner,
                            };
                            proof {
                                found = i as int;
                                before.lemma_view_at(i as int);
                            }
                            let footer = render_footer(t.age_ticks / 2);
                            updates.push(
                                LiveUpdate {
                                    key: rec.start_time.clone(),
                                    message_ref: t.message_ref,
                                    owner: roster[pi].discord,
                                    description,
                                    footer,
                                },
                            );
                            proof {
                                assert(updates@.map_values(|u: LiveUpdate| update_view(u)) =~= updates0.map_values(
                                    |u: LiveUpdate| update_view(u),
                                ).push(update_view(updates@[updates@.len() - 1])));
                                assert(starts@ == starts0);
                            }
                        },
                        None => {
                            starts.push(
                                StartNotice {
                                    key: rec.start_time.clone(),
                                    description,
                                    owner: roster[pi].discord,
                                    player: pi,
                                },
                            );
                            proof {
                                assert(starts@.map_values(|n: StartNotice| start_view(n)) =~= starts0.map_values(
                                    |n: StartNotice| start_view(n),
                                ).push(start_view(starts@[starts@.len() - 1])));
                            }
                        },
                    }
                },
                None => {},
            }
            proof {
                assert forall|a: int| 0 <= a < self.tracks@.len() implies self.tracks@[a] == with_seen(
                    before.tracks@[a],
                    live_key(ongoing@.take(jj + 1), roster@, before.keys@[a]@),
                ) by {
                    lemma_live_key_step(ongoing@, roster@, jj, before.keys@[a]@);
                    if a != found {
                        assert(self.tracks@[a] == tracks0[a]);
                        if ongoing@[jj].start_time@ == before.keys@[a]@ && crate::roster::eligible(&ongoing@[jj], roster@) {
                            if found >= 0 {
                                assert(before.keys@[found]@ == before.keys@[a]@);
                                if a < found {
                                    assert(before.keys@[a]@ != before.keys@[found]@);
                                } else {
                                    assert(before.keys@[found]@ != before.keys@[a]@);
                                }
                            } else {
                                before.lemma_view_at(a);
                            }
                        }
                    }
                }
            }
            j = j + 1;
        }
        proof {
            assert(ongoing@.take(ongoing@.len() as int) =~= ongoing@);
            let expected = after_poll(before@, ongoing@, roster@);
            assert forall|q: Seq<char>| #[trigger] self@.contains_key(q) <==> expected.contains_key(q) by {}
            assert forall|q: Seq<char>| #[trigger] self@.contains_key(q) implies self@[q] == expected[q] by {
                let a = choose|a: int| 0 <= a < self.keys@.len() && self.keys@[a]@ == q;
                self.lemma_view_at(a);
                before.lemma_view_at(a);
            }
            assert(self@ =~= expected);
        }
        let pending = self.unseen_keys();
        PollPlan { starts, updates, pending }
    }

    /// What to post once the detail fetch for a pending match has come back: nothing
    /// when the fetch found no detail (the match may still be finishing), when `key` is
    /// not a pending record, or when the detail lacks the slots its mode reads; otherwise
    /// the final summary, the duration in the footer, and the score blocks, into the
    /// record's post.
    pub fn final_post(&self, key: &String, detail: &Option<MatchDetail>, labels: &Labels) -> (r:
        Option<FinalPost>)
        requires
            self.wf(),
        ensures
            r is Some <==> (self@.contains_key(key@) && !self@[key@].seen_this_cycle
                && detail is Some && well_shaped(&detail->0.match_data)),
            r matches Some(f) ==> {
                let d = detail->0;
                &&& f.message_ref == self@[key@].message_ref
                &&& f.owner == self@[key@].owner
                &&& f.description@ == final_text(&d.match_data, labels)
                &&& f.footer@ == footer_text((d.match_data.duration_in_seconds / 60) as nat)
                &&& f.scores is Some <==> has_score_fields(&d)
                &&& f.scores matches Some(sf) ==> fields_show(
                    sf,
                    scores_in_team_order(&d).0,
                    scores_in_team_order(&d).1,
                )
            },
    {
        let d = match detail {
            Some(d) => d,
            None => {
                return None;
            },
        };
        let t = match self.get(key) {
            Some(t) => t,
            None => {
                return None;
            },
        };
        if t.seen_this_cycle {
            return None;
        }
        match render_final(d, labels) {
            Some(summary) => Some(
                FinalPost {
                    message_ref: t.message_ref,
                    owner: t.owner,
                    description: summary.description,
                    footer: render_footer(summary.minutes),
                    scores: summary.scores,
                },
            ),
            None => None,
        }
    }

    /// The number of records held.
    pub closed spec fn record_count(&self) -> nat {
        self.keys@.len()
    }

    /// The store never holds two records with the same match key: it holds exactly as
    /// many records as it tracks distinct keys.
    pub proof fn law_one_record_per_key(&self)
        requires
            self.wf(),
        ensures
            self.record_count() == self@.len(),
    {
        self.lemma_len();
    }
}

} // verus!
