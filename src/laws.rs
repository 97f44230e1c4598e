//! Properties that relate the tracker's cycles to one another.
use vstd::prelude::*;
use crate::model::{slot, MatchRecord, RosterEntry, MODE_SOLO};
use crate::plan::{after_poll, live_key};
use crate::render::live_text;
use crate::store::{after_aging, after_resolution, after_start, TrackedMatch};
use crate::text::Labels;

verus! {

/// A tracked match that has left a (non-empty) ongoing list is, after that poll cycle,
/// still tracked, pending and no older. If its final post is then made, its record goes
/// and the next aging cycle finds nothing to age; if not, and it is below the ceiling,
/// the next aging cycle keeps it one tick older. It is never both gone and kept.
pub proof fn law_vanished_match_resolves_or_ages(
    m: Map<Seq<char>, TrackedMatch>,
    ongoing: Seq<MatchRecord>,
    roster: Seq<RosterEntry>,
    k: Seq<char>,
    ceiling: u32,
)
    requires
        m.contains_key(k),
        ongoing.len() > 0,
        !live_key(ongoing, roster, k),
    ensures
        ({
            let p = after_poll(m, ongoing, roster);
            &&& p.contains_key(k)
            &&& !p[k].seen_this_cycle
            &&& p[k].age_ticks == m[k].age_ticks
            &&& p[k].message_ref == m[k].message_ref
            &&& !after_resolution(p, k).contains_key(k)
            &&& !after_aging(after_resolution(p, k), ceiling).contains_key(k)
            &&& m[k].age_ticks < ceiling ==> after_aging(p, ceiling).contains_key(k)
                && after_aging(p, ceiling)[k].age_ticks == m[k].age_ticks + 1
        }),
{
}

/// A record at or above the ceiling is evicted by the next aging cycle, whatever the
/// poll cycles did, and no resolution can then remove it again; a record that a
/// resolution removed first is never evicted.
pub proof fn law_ceiling_evicts(m: Map<Seq<char>, TrackedMatch>, k: Seq<char>, ceiling: u32)
    requires
        m.contains_key(k),
    ensures
        m[k].age_ticks >= ceiling ==> !after_aging(m, ceiling).contains_key(k) && after_resolution(
            after_aging(m, ceiling),
            k,
        ) == after_aging(m, ceiling),
        !m[k].seen_this_cycle ==> !after_aging(after_resolution(m, k), ceiling).contains_key(k),
{
}

/// Aging never lowers a record's age: a record that stays grows exactly one tick.
pub proof fn law_age_grows(m: Map<Seq<char>, TrackedMatch>, k: Seq<char>, ceiling: u32)
    requires
        after_aging(m, ceiling).contains_key(k),
    ensures
        m.contains_key(k),
        after_aging(m, ceiling)[k].age_ticks == m[k].age_ticks + 1,
{
}

/// A record keeps its post and its owner for as long as it lives, and its age never
/// goes down: a poll cycle keeps every record with its post, owner and age; a start
/// post for a tracked key changes nothing; an aging cycle keeps the post and owner of
/// every record it keeps.
pub proof fn law_records_keep_post_and_age(
    m: Map<Seq<char>, TrackedMatch>,
    ongoing: Seq<MatchRecord>,
    roster: Seq<RosterEntry>,
    k: Seq<char>,
    message_ref: u64,
    owner: u64,
    ceiling: u32,
)
    requires
        m.contains_key(k),
    ensures
        after_poll(m, ongoing, roster).contains_key(k),
        after_poll(m, ongoing, roster)[k].message_ref == m[k].message_ref,
        after_poll(m, ongoing, roster)[k].owner == m[k].owner,
        after_poll(m, ongoing, roster)[k].age_ticks == m[k].age_ticks,
        after_start(m, k, message_ref, owner) == m,
        after_aging(m, ceiling).contains_key(k) ==> {
            &&& after_aging(m, ceiling)[k].message_ref == m[k].message_ref
            &&& after_aging(m, ceiling)[k].owner == m[k].owner
            &&& after_aging(m, ceiling)[k].age_ticks > m[k].age_ticks
        },
{
}

/// The two matches agree on every field that the live summary reads: mode, map, and
/// name, race and rating of each read slot.
pub open spec fn same_live_fields(a: &MatchRecord, b: &MatchRecord) -> bool {
    &&& a.game_mode == b.game_mode
    &&& a.map@ == b.map@
    &&& a.teams@.len() == b.teams@.len()
    &&& forall|t: int, p: int|
        0 <= t < 2 && 0 <= p < (if a.game_mode == MODE_SOLO {
            1int
        } else {
            2int
        }) ==> {
            &&& #[trigger] slot(a, t, p).name@ == slot(b, t, p).name@
            &&& slot(a, t, p).race == slot(b, t, p).race
            &&& slot(a, t, p).old_mmr == slot(b, t, p).old_mmr
        }
}

/// Rendering an unchanged match in progress gives the same summary every time: the
/// live summary depends on the match's fields alone.
pub proof fn law_live_render_stable(a: &MatchRecord, b: &MatchRecord, labels: &Labels)
    requires
        same_live_fields(a, b),
    ensures
        live_text(a, labels) == live_text(b, labels),
{
    assert(slot(a, 0, 0).name@ == slot(b, 0, 0).name@);
    assert(slot(a, 1, 0).name@ == slot(b, 1, 0).name@);
    if a.game_mode != MODE_SOLO {
        assert(slot(a, 0, 1).name@ == slot(b, 0, 1).name@);
        assert(slot(a, 1, 1).name@ == slot(b, 1, 1).name@);
    }
}

} // verus!
