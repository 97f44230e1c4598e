//! What one poll cycle asks the publisher to do.
use vstd::prelude::*;
use crate::model::{MatchRecord, RosterEntry};
use crate::render::{footer_text, live_text};
use crate::roster::{eligible, roster_pick};
use crate::store::TrackedMatch;
use crate::text::Labels;

verus! {

/// A match seen for the first time: the publisher posts its start and hands the
/// post's reference back to the store.
pub struct StartNotice {
    pub key: String,
    pub description: String,
    pub owner: u64,
    /// Index of the tracked player in the roster.
    pub player: usize,
}

/// A tracked match still in progress: the publisher re-renders its live post.
pub struct LiveUpdate {
    pub key: String,
    pub message_ref: u64,
    pub owner: u64,
    pub description: String,
    pub footer: String,
}

/// The outcome of one poll cycle.
pub struct PollPlan {
    pub starts: Vec<StartNotice>,
    pub updates: Vec<LiveUpdate>,
    /// Tracked matches that left the ongoing list; their details are to be fetched.
    pub pending: Vec<String>,
}

pub open spec fn start_view(n: StartNotice) -> (Seq<char>, Seq<char>, u64, int) {
    (n.key@, n.description@, n.owner, n.player as int)
}

pub open spec fn update_view(u: LiveUpdate) -> (Seq<char>, u64, u64, Seq<char>, Seq<char>) {
    (u.key@, u.message_ref, u.owner, u.description@, u.footer@)
}

/// The tracked player of an eligible match.
pub open spec fn picked(m: &MatchRecord, roster: Seq<RosterEntry>) -> int {
    roster_pick(m, roster)->0
}

/// The start notices for the ongoing list, in its order: one for each eligible match
/// whose key the store does not track.
pub open spec fn starts_for(
    m: Map<Seq<char>, TrackedMatch>,
    ongoing: Seq<MatchRecord>,
    roster: Seq<RosterEntry>,
    labels: &Labels,
) -> Seq<(Seq<char>, Seq<char>, u64, int)>
    decreases ongoing.len(),
{
    if ongoing.len() == 0 {
        Seq::empty()
    } else {
        let prev = starts_for(m, ongoing.drop_last(), roster, labels);
        let rec = ongoing.last();
        if eligible(&rec, roster) && !m.contains_key(rec.start_time@) {
            prev.push(
                (
                    rec.start_time@,
                    live_text(&rec, labels),
                    roster[picked(&rec, roster)].discord,
                    picked(&rec, roster),
                ),
            )
        } else {
            prev
        }
    }
}

/// The live updates for the ongoing list, in its order: one for each eligible match
/// whose key the store tracks, into its post, with its age in the footer.
pub open spec fn updates_for(
    m: Map<Seq<char>, TrackedMatch>,
    ongoing: Seq<MatchRecord>,
    roster: Seq<RosterEntry>,
    labels: &Labels,
) -> Seq<(Seq<char>, u64, u64, Seq<char>, Seq<char>)>
    decreases ongoing.len(),
{
    if ongoing.len() == 0 {
        Seq::empty()
    } else {
        let prev = updates_for(m, ongoing.drop_last(), roster, labels);
        let rec = ongoing.last();
        let k = rec.start_time@;
        if eligible(&rec, roster) && m.contains_key(k) {
            prev.push(
                (
                    k,
                    m[k].message_ref,
                    roster[picked(&rec, roster)].discord,
                    live_text(&rec, labels),
                    footer_text((m[k].age_ticks / 2) as nat),
                ),
            )
        } else {
            prev
        }
    }
}

/// An eligible match with start-time token `k` is in the ongoing list.
pub open spec fn live_key(ongoing: Seq<MatchRecord>, roster: Seq<RosterEntry>, k: Seq<char>) -> bool {
    exists|j: int| 0 <= j < ongoing.len() && ongoing[j].start_time@ == k && eligible(&ongoing[j], roster)
}

pub proof fn lemma_live_key_step(ongoing: Seq<MatchRecord>, roster: Seq<RosterEntry>, j: int, k: Seq<char>)
    requires
        0 <= j < ongoing.len(),
    ensures
        live_key(ongoing.take(j + 1), roster, k) == (live_key(ongoing.take(j), roster, k) || (
        ongoing[j].start_time@ == k && eligible(&ongoing[j], roster))),
{
    let a = ongoing.take(j + 1);
    let b = ongoing.take(j);
    if live_key(a, roster, k) {
        let l = choose|l: int| 0 <= l < a.len() && a[l].start_time@ == k && eligible(&a[l], roster);
        if l < j {
            assert(b[l] == a[l]);
        }
    }
    if live_key(b, roster, k) {
        let l = choose|l: int| 0 <= l < b.len() && b[l].start_time@ == k && eligible(&b[l], roster);
        assert(a[l] == b[l]);
    }
    if ongoing[j].start_time@ == k && eligible(&ongoing[j], roster) {
        assert(a[j] == ongoing[j]);
    }
}

/// The store after a poll cycle over a non-empty ongoing list: the same records,
/// each marked seen exactly when an eligible match with its key is in the list.
/// An empty list changes nothing.
pub open spec fn after_poll(
    m: Map<Seq<char>, TrackedMatch>,
    ongoing: Seq<MatchRecord>,
    roster: Seq<RosterEntry>,
) -> Map<Seq<char>, TrackedMatch> {
    if ongoing.len() == 0 {
        m
    } else {
        Map::new(
            |k: Seq<char>| m.contains_key(k),
            |k: Seq<char>| crate::store::with_seen(m[k], live_key(ongoing, roster, k)),
        )
    }
}

} // verus!
