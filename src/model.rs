//! The match records handed over by the statistics service, and the roster.
use vstd::prelude::*;

verus! {

/// Game mode code of a one-versus-one match.
pub const MODE_SOLO: u32 = 1;

/// Game mode code of a two-versus-two match of randomly joined partners,
/// where each player keeps a rating of their own.
pub const MODE_RANDOM_TEAM: u32 = 2;

/// Game mode code of a two-versus-two match of an arranged team,
/// which shares one rating.
pub const MODE_ARRANGED_TEAM: u32 = 6;

/// One player slot of a team.
pub struct PlayerSlot {
    pub battle_tag: String,
    pub name: String,
    pub race: u32,
    pub old_mmr: i64,
    pub mmr_gain: i64,
    pub won: bool,
}

/// One side of a match.
pub struct Team {
    pub players: Vec<PlayerSlot>,
    pub won: bool,
}

/// A match as the service reports it, ongoing or finished.
pub struct MatchRecord {
    pub id: String,
    pub start_time: String,
    pub game_mode: u32,
    pub map: String,
    pub teams: Vec<Team>,
    pub duration_in_seconds: u32,
}

/// The score breakdown of one player of a finished match.
pub struct PlayerScore {
    pub battle_tag: String,
    pub units_produced: u64,
    pub units_killed: u64,
    pub gold_collected: u64,
    pub exp_gained: u64,
}

/// The full record of a finished match.
pub struct MatchDetail {
    pub match_data: MatchRecord,
    pub player_scores: Vec<PlayerScore>,
}

/// A tracked player: their battle tag, their chat account and their streams.
pub struct RosterEntry {
    pub battletag: String,
    pub discord: u64,
    pub streams: Vec<String>,
}

/// Player `p` of team `t`.
pub open spec fn slot(m: &MatchRecord, t: int, p: int) -> PlayerSlot {
    m.teams@[t].players@[p]
}

/// The two-versus-two modes.
pub open spec fn is_team_mode(mode: u32) -> bool {
    mode == MODE_RANDOM_TEAM || mode == MODE_ARRANGED_TEAM
}

/// Both of the first two teams have at least `n` player slots.
pub open spec fn has_slots(m: &MatchRecord, n: int) -> bool {
    m.teams@.len() > 1 && m.teams@[0].players@.len() >= n && m.teams@[1].players@.len() >= n
}

/// The match is of a tracked mode and has the slots that mode reads.
pub open spec fn well_shaped(m: &MatchRecord) -> bool {
    (m.game_mode == MODE_SOLO && has_slots(m, 1)) || (is_team_mode(m.game_mode) && has_slots(
        m,
        2,
    ))
}

pub fn is_team_mode_code(mode: u32) -> (r: bool)
    ensures
        r == is_team_mode(mode),
{
    mode == MODE_RANDOM_TEAM || mode == MODE_ARRANGED_TEAM
}

/// Whether the match is of a tracked mode and has the slots that mode reads.
pub fn is_well_shaped(m: &MatchRecord) -> (r: bool)
    ensures
        r == well_shaped(m),
{
    let need: usize = if m.game_mode == MODE_SOLO {
        1
    } else if is_team_mode_code(m.game_mode) {
        2
    } else {
        return false;
    };
    m.teams.len() > 1 && m.teams[0].players.len() >= need && m.teams[1].players.len() >= need
}

} // verus!
