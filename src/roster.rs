//! Which tracked player, if any, takes part in a match.
use vstd::prelude::*;
use crate::model::{is_team_mode, is_team_mode_code, is_well_shaped, slot, well_shaped, MatchRecord, RosterEntry};

verus! {

/// The player with battle tag `tag` sits in one of the slots that the match's mode reads:
/// the first slot of either team, and in a two-versus-two mode the second slots too.
pub open spec fn takes_part(m: &MatchRecord, tag: Seq<char>) -> bool {
    slot(m, 0, 0).battle_tag@ == tag || slot(m, 1, 0).battle_tag@ == tag || (is_team_mode(
        m.game_mode,
    ) && (slot(m, 0, 1).battle_tag@ == tag || slot(m, 1, 1).battle_tag@ == tag))
}

/// The roster entry at `i` plays in the (well-shaped) match.
pub open spec fn plays_in(m: &MatchRecord, roster: Seq<RosterEntry>, i: int) -> bool {
    0 <= i < roster.len() && well_shaped(m) && takes_part(m, roster[i].battletag@)
}

/// The first roster entry, in roster order, that plays in the match.
#[verifier::opaque]
pub open spec fn roster_pick(m: &MatchRecord, roster: Seq<RosterEntry>) -> Option<int> {
    if exists|i: int| plays_in(m, roster, i) {
        Some(choose|i: int| plays_in(m, roster, i) && forall|j: int| 0 <= j < i ==> !plays_in(m, roster, j))
    } else {
        None
    }
}

/// The match concerns a tracked player.
pub open spec fn eligible(m: &MatchRecord, roster: Seq<RosterEntry>) -> bool {
    roster_pick(m, roster) is Some
}

proof fn lemma_pick_is_first(m: &MatchRecord, roster: Seq<RosterEntry>, i: int)
    requires
        plays_in(m, roster, i),
        forall|j: int| 0 <= j < i ==> !plays_in(m, roster, j),
    ensures
        roster_pick(m, roster) == Some(i),
{
    reveal(roster_pick);
    let k = choose|k: int| plays_in(m, roster, k) && forall|j: int| 0 <= j < k ==> !plays_in(m, roster, j);
    if k > i {
        assert(!plays_in(m, roster, i));
    }
    if k < i {
        assert(!plays_in(m, roster, k));
    }
}

fn takes_part_exec(m: &MatchRecord, tag: &String) -> (r: bool)
    requires
        well_shaped(m),
    ensures
        r == takes_part(m, tag@),
{
    let t0 = &m.teams[0].players;
    let t1 = &m.teams[1].players;
    if t0[0].battle_tag == *tag || t1[0].battle_tag == *tag {
        return true;
    }
    if is_team_mode_code(m.game_mode) {
        t0[1].battle_tag == *tag || t1[1].battle_tag == *tag
    } else {
        false
    }
}

/// The first roster entry that plays in the match, with whether the match is a
/// two-versus-two one; `None` when the mode is not tracked, the slots it reads are
/// missing, or no roster entry plays.
pub fn match_roster(m: &MatchRecord, roster: &Vec<RosterEntry>) -> (r: Option<(usize, bool)>)
    ensures
        match r {
            Some((i, two)) => roster_pick(m, roster@) == Some(i as int) && two == is_team_mode(
                m.game_mode,
            ),
            None => roster_pick(m, roster@) is None,
        },
        r is Some ==> well_shaped(m),
        r matches Some((i, _)) ==> i < roster@.len(),
{
    if !is_well_shaped(m) {
        proof {
            reveal(roster_pick);
        }
        return None;
    }
    let mut i: usize = 0;
    while i < roster.len()
        invariant
            well_shaped(m),
            i <= roster@.len(),
            forall|j: int| 0 <= j < i ==> !plays_in(m, roster@, j),
        decreases roster@.len() - i,
    {
        if takes_part_exec(m, &roster[i].battletag) {
            assert(plays_in(m, roster@, i as int));
            proof {
                lemma_pick_is_first(m, roster@, i as int);
            }
            return Some((i, is_team_mode_code(m.game_mode)));
        }
        i = i + 1;
    }
    proof {
        reveal(roster_pick);
    }
    None
}

/// The provider id of the first match in `recent` that started at `key` and
/// concerns a tracked player.
pub open spec fn canonical_index(
    recent: Seq<MatchRecord>,
    key: Seq<char>,
    roster: Seq<RosterEntry>,
) -> Option<int> {
    if exists|j: int| 0 <= j < recent.len() && recent[j].start_time@ == key && eligible(&recent[j], roster) {
        Some(
            choose|j: int|
                0 <= j < recent.len() && recent[j].start_time@ == key && eligible(&recent[j], roster)
                    && forall|l: int|
                    0 <= l < j ==> !(recent[l].start_time@ == key && eligible(&recent[l], roster)),
        )
    } else {
        None
    }
}

/// Finds the provider id of the match that started at `key`, among matches that
/// concern a tracked player.
pub fn resolve_match_id(recent: &Vec<MatchRecord>, key: &String, roster: &Vec<RosterEntry>) -> (r:
    Option<String>)
    ensures
        match canonical_index(recent@, key@, roster@) {
            Some(j) => r is Some && r->0@ == recent@[j].id@,
            None => r is None,
        },
{
    let mut j: usize = 0;
    while j < recent.len()
        invariant
            j <= recent@.len(),
            forall|l: int|
                0 <= l < j ==> !(recent@[l].start_time@ == key@ && eligible(&recent@[l], roster@)),
        decreases recent@.len() - j,
    {
        if recent[j].start_time == *key && match_roster(&recent[j], roster).is_some() {
            proof {
                let k = choose|k: int|
                    0 <= k < recent@.len() && recent@[k].start_time@ == key@ && eligible(
                        &recent@[k],
                        roster@,
                    ) && forall|l: int|
                        0 <= l < k ==> !(recent@[l].start_time@ == key@ && eligible(
                            &recent@[l],
                            roster@,
                        ));
                assert(recent@[j as int].start_time@ == key@ && eligible(&recent@[j as int], roster@));
                if k > j {
                    assert(!(recent@[j as int].start_time@ == key@ && eligible(&recent@[j as int], roster@)));
                }
            }
            return Some(recent[j].id.clone());
        }
        j = j + 1;
    }
    None
}

} // verus!
