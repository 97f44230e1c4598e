//! Human-readable summaries of ongoing and finished matches.
use vstd::prelude::*;
use crate::model::{
    is_well_shaped, slot, well_shaped, MatchDetail, MatchRecord, PlayerScore,
    PlayerSlot, Team, MODE_ARRANGED_TEAM, MODE_SOLO,
};
use crate::text::{
    decimal, map_text, push_decimal, push_signed, race_text, signed_decimal, Labels,
};

verus! {

/// `[rating]`
pub open spec fn rating_text(v: i64) -> Seq<char> {
    "["@ + signed_decimal(v as int) + "]"@
}

/// `(race) ` for one player, `(race+race) ` for the first two players of a team.
pub open spec fn races_text(labels: &Labels, team: &Team, two: bool) -> Seq<char> {
    if two {
        "("@ + race_text(labels, team.players@[0].race) + "+"@ + race_text(
            labels,
            team.players@[1].race,
        ) + ") "@
    } else {
        "("@ + race_text(labels, team.players@[0].race) + ") "@
    }
}

/// One side of an ongoing match.
pub open spec fn live_side_text(labels: &Labels, mode: u32, team: &Team) -> Seq<char> {
    let a = team.players@[0];
    if mode == MODE_SOLO {
        races_text(labels, team, false) + "**"@ + a.name@ + "** "@ + rating_text(a.old_mmr)
    } else if mode == MODE_ARRANGED_TEAM {
        let b = team.players@[1];
        races_text(labels, team, true) + "**"@ + a.name@ + "** + **"@ + b.name@ + "** "@
            + rating_text(a.old_mmr)
    } else {
        let b = team.players@[1];
        races_text(labels, team, true) + "**"@ + a.name@ + "** "@ + rating_text(a.old_mmr)
            + " + **"@ + b.name@ + "** "@ + rating_text(b.old_mmr)
    }
}

/// The two sides joined, followed by the map label, in the layout of the mode.
pub open spec fn join_sides(mode: u32, first: Seq<char>, second: Seq<char>, map: Seq<char>) -> Seq<
    char,
> {
    if mode == MODE_SOLO {
        first + " *vs* "@ + second + " *"@ + map + "*"@
    } else {
        first + "\n*vs*\n"@ + second + "\n\nmap: **"@ + map + "**"@
    }
}

/// The summary of a match in progress: races, names and ratings of both sides, and the map.
pub open spec fn live_text(m: &MatchRecord, labels: &Labels) -> Seq<char> {
    join_sides(
        m.game_mode,
        live_side_text(labels, m.game_mode, &m.teams@[0]),
        live_side_text(labels, m.game_mode, &m.teams@[1]),
        map_text(labels, m.map@),
    )
}

/// A player of a finished one-versus-one match: bold and a signed gain for the winner,
/// italic for the loser.
pub open spec fn solo_result_text(p: PlayerSlot) -> Seq<char> {
    if p.won {
        "__**"@ + p.name@ + "**__ **+"@ + signed_decimal(p.mmr_gain as int) + "**"@
    } else {
        "__*"@ + p.name@ + "*__ **"@ + signed_decimal(p.mmr_gain as int) + "**"@
    }
}

/// A player of a finished two-versus-two match of random partners.
pub open spec fn pair_result_text(p: PlayerSlot, won: bool) -> Seq<char> {
    if won {
        "__**"@ + p.name@ + " "@ + rating_text(p.old_mmr) + "**__ **+"@ + signed_decimal(
            p.mmr_gain as int,
        ) + "**"@
    } else {
        "__*"@ + p.name@ + " "@ + rating_text(p.old_mmr) + "*__ *"@ + signed_decimal(
            p.mmr_gain as int,
        ) + "*"@
    }
}

/// The outcome marker of a two-versus-two side.
pub open spec fn outcome_text(won: bool) -> Seq<char> {
    if won {
        " (won)"@
    } else {
        " (lost)"@
    }
}

/// One side of a finished two-versus-two match of an arranged team.
pub open spec fn arranged_side_text(labels: &Labels, team: &Team, won: bool) -> Seq<char> {
    let a = team.players@[0];
    let b = team.players@[1];
    if won {
        races_text(labels, team, true) + "__**"@ + a.name@ + " + "@ + b.name@ + " "@ + rating_text(
            a.old_mmr,
        ) + "**__ **+"@ + signed_decimal(a.mmr_gain as int) + "**"@ + outcome_text(won)
    } else {
        races_text(labels, team, true) + "__*"@ + a.name@ + " + "@ + b.name@ + " "@ + rating_text(
            a.old_mmr,
        ) + "*__ *"@ + signed_decimal(a.mmr_gain as int) + "*"@ + outcome_text(won)
    }
}

/// One side of a finished match; `won` tells the winner of a two-versus-two match.
pub open spec fn final_side_text(labels: &Labels, mode: u32, team: &Team, won: bool) -> Seq<char> {
    let a = team.players@[0];
    if mode == MODE_SOLO {
        races_text(labels, team, false) + solo_result_text(a) + " "@ + rating_text(a.old_mmr)
    } else if mode == MODE_ARRANGED_TEAM {
        arranged_side_text(labels, team, won)
    } else {
        let b = team.players@[1];
        races_text(labels, team, true) + pair_result_text(a, won) + " + "@ + pair_result_text(b, won)
            + outcome_text(won)
    }
}

/// The summary of a finished match: as the live one, with each side's rating change,
/// the winner in bold and the loser in italics.
pub open spec fn final_text(m: &MatchRecord, labels: &Labels) -> Seq<char> {
    join_sides(
        m.game_mode,
        final_side_text(labels, m.game_mode, &m.teams@[0], m.teams@[0].won),
        final_side_text(labels, m.game_mode, &m.teams@[1], !m.teams@[0].won),
        map_text(labels, m.map@),
    )
}

/// A player's score block: units produced and killed, gold collected, hero experience.
pub open spec fn score_text(p: PlayerScore) -> Seq<char> {
    "produced: "@ + decimal(p.units_produced as nat) + "\nkilled: "@ + decimal(
        p.units_killed as nat,
    ) + "\ngold: "@ + decimal(p.gold_collected as nat) + "\nhero exp: "@ + decimal(
        p.exp_gained as nat,
    )
}

/// The footer of a post: minutes passed.
pub open spec fn footer_text(minutes: nat) -> Seq<char> {
    "Passed: "@ + decimal(minutes) + " min"@
}

fn push_rating(out: &mut String, v: i64)
    ensures
        final(out)@ == old(out)@ + rating_text(v),
{
    out.append("[");
    push_signed(out, v);
    out.append("]");
    assert(out@ =~= old(out)@ + rating_text(v));
}

fn push_races(out: &mut String, labels: &Labels, team: &Team, two: bool)
    requires
        team.players@.len() >= if two {
            2int
        } else {
            1int
        },
    ensures
        final(out)@ == old(out)@ + races_text(labels, team, two),
{
    out.append("(");
    labels.push_race(out, team.players[0].race);
    if two {
        out.append("+");
        labels.push_race(out, team.players[1].race);
    }
    out.append(") ");
    assert(out@ =~= old(out)@ + races_text(labels, team, two));
}

fn push_live_side(out: &mut String, labels: &Labels, mode: u32, team: &Team)
    requires
        team.players@.len() >= if mode == MODE_SOLO {
            1int
        } else {
            2int
        },
    ensures
        final(out)@ == old(out)@ + live_side_text(labels, mode, team),
{
    let a = &team.players[0];
    if mode == MODE_SOLO {
        push_races(out, labels, team, false);
        out.append("**");
        out.append(a.name.as_str());
        out.append("** ");
        push_rating(out, a.old_mmr);
    } else if mode == MODE_ARRANGED_TEAM {
        let b = &team.players[1];
        push_races(out, labels, team, true);
        out.append("**");
        out.append(a.name.as_str());
        out.append("** + **");
        out.append(b.name.as_str());
        out.append("** ");
        push_rating(out, a.old_mmr);
    } else {
        let b = &team.players[1];
        push_races(out, labels, team, true);
        out.append("**");
        out.append(a.name.as_str());
        out.append("** ");
        push_rating(out, a.old_mmr);
        out.append(" + **");
        out.append(b.name.as_str());
        out.append("** ");
        push_rating(out, b.old_mmr);
    }
    assert(out@ =~= old(out)@ + live_side_text(labels, mode, team));
}

fn push_separator(out: &mut String, mode: u32)
    ensures
        final(out)@ == old(out)@ + (if mode == MODE_SOLO {
            " *vs* "@
        } else {
            "\n*vs*\n"@
        }),
{
    if mode == MODE_SOLO {
        out.append(" *vs* ");
    } else {
        out.append("\n*vs*\n");
    }
}

fn push_map_tail(out: &mut String, labels: &Labels, mode: u32, map: &String)
    ensures
        final(out)@ == old(out)@ + (if mode == MODE_SOLO {
            " *"@ + map_text(labels, map@) + "*"@
        } else {
            "\n\nmap: **"@ + map_text(labels, map@) + "**"@
        }),
{
    if mode == MODE_SOLO {
        out.append(" *");
        labels.push_map(out, map);
        out.append("*");
    } else {
        out.append("\n\nmap: **");
        labels.push_map(out, map);
        out.append("**");
    }
    assert(out@ =~= old(out)@ + (if mode == MODE_SOLO {
        " *"@ + map_text(labels, map@) + "*"@
    } else {
        "\n\nmap: **"@ + map_text(labels, map@) + "**"@
    }));
}

/// Renders the summary of a match in progress.
pub fn render_live(m: &MatchRecord, labels: &Labels) -> (r: String)
    requires
        well_shaped(m),
    ensures
        r@ == live_text(m, labels),
{
    let mut out = String::new();
    push_live_side(&mut out, labels, m.game_mode, &m.teams[0]);
    push_separator(&mut out, m.game_mode);
    push_live_side(&mut out, labels, m.game_mode, &m.teams[1]);
    push_map_tail(&mut out, labels, m.game_mode, &m.map);
    assert(out@ =~= live_text(m, labels));
    out
}

fn push_solo_result(out: &mut String, p: &PlayerSlot)
    ensures
        final(out)@ == old(out)@ + solo_result_text(*p),
{
    if p.won {
        out.append("__**");
        out.append(p.name.as_str());
        out.append("**__ **+");
    } else {
        out.append("__*");
        out.append(p.name.as_str());
        out.append("*__ **");
    }
    push_signed(out, p.mmr_gain);
    out.append("**");
    assert(out@ =~= old(out)@ + solo_result_text(*p));
}

fn push_pair_result(out: &mut String, p: &PlayerSlot, won: bool)
    ensures
        final(out)@ == old(out)@ + pair_result_text(*p, won),
{
    if won {
        out.append("__**");
        out.append(p.name.as_str());
        out.append(" ");
        push_rating(out, p.old_mmr);
        out.append("**__ **+");
        push_signed(out, p.mmr_gain);
        out.append("**");
    } else {
        out.append("__*");
        out.append(p.name.as_str());
        out.append(" ");
        push_rating(out, p.old_mmr);
        out.append("*__ *");
        push_signed(out, p.mmr_gain);
        out.append("*");
    }
    assert(out@ =~= old(out)@ + pair_result_text(*p, won));
}

fn push_outcome(out: &mut String, won: bool)
    ensures
        final(out)@ == old(out)@ + outcome_text(won),
{
    if won {
        out.append(" (won)");
    } else {
        out.append(" (lost)");
    }
}

fn push_arranged_side(out: &mut String, labels: &Labels, team: &Team, won: bool)
    requires
        team.players@.len() >= 2,
    ensures
        final(out)@ == old(out)@ + arranged_side_text(labels, team, won),
{
    let a = &team.players[0];
    let b = &team.players[1];
    push_races(out, labels, team, true);
    if won {
        out.append("__**");
    } else {
        out.append("__*");
    }
    out.append(a.name.as_str());
    out.append(" + ");
    out.append(b.name.as_str());
    out.append(" ");
    push_rating(out, a.old_mmr);
    if won {
        out.append("**__ **+");
    } else {
        out.append("*__ *");
    }
    push_signed(out, a.mmr_gain);
    if won {
        out.append("**");
    } else {
        out.append("*");
    }
    push_outcome(out, won);
    assert(out@ =~= old(out)@ + arranged_side_text(labels, team, won));
}

fn push_final_side(out: &mut String, labels: &Labels, mode: u32, team: &Team, won: bool)
    requires
        team.players@.len() >= if mode == MODE_SOLO {
            1int
        } else {
            2int
        },
    ensures
        final(out)@ == old(out)@ + final_side_text(labels, mode, team, won),
{
    let a = &team.players[0];
    if mode == MODE_SOLO {
        push_races(out, labels, team, false);
        push_solo_result(out, a);
        out.append(" ");
        push_rating(out, a.old_mmr);
    } else if mode == MODE_ARRANGED_TEAM {
        push_arranged_side(out, labels, team, won);
    } else {
        let b = &team.players[1];
        push_races(out, labels, team, true);
        push_pair_result(out, a, won);
        out.append(" + ");
        push_pair_result(out, b, won);
        push_outcome(out, won);
    }
    assert(out@ =~= old(out)@ + final_side_text(labels, mode, team, won));
}

/// Renders the summary of a finished match.
pub fn render_result(m: &MatchRecord, labels: &Labels) -> (r: String)
    requires
        well_shaped(m),
    ensures
        r@ == final_text(m, labels),
{
    let mut out = String::new();
    let first_won = m.teams[0].won;
    push_final_side(&mut out, labels, m.game_mode, &m.teams[0], first_won);
    push_separator(&mut out, m.game_mode);
    push_final_side(&mut out, labels, m.game_mode, &m.teams[1], !first_won);
    push_map_tail(&mut out, labels, m.game_mode, &m.map);
    assert(out@ =~= final_text(m, labels));
    out
}

/// Renders a player's score block.
pub fn render_score(p: &PlayerScore) -> (r: String)
    ensures
        r@ == score_text(*p),
{
    let mut out = String::new();
    out.append("produced: ");
    push_decimal(&mut out, p.units_produced);
    out.append("\nkilled: ");
    push_decimal(&mut out, p.units_killed);
    out.append("\ngold: ");
    push_decimal(&mut out, p.gold_collected);
    out.append("\nhero exp: ");
    push_decimal(&mut out, p.exp_gained);
    assert(out@ =~= score_text(*p));
    out
}

/// Renders the footer of a post.
pub fn render_footer(minutes: u32) -> (r: String)
    ensures
        r@ == footer_text(minutes as nat),
{
    let mut out = String::new();
    out.append("Passed: ");
    push_decimal(&mut out, minutes as u64);
    out.append(" min");
    assert(out@ =~= footer_text(minutes as nat));
    out
}

/// Two score blocks, each under its player's battle tag.
pub struct ScoreFields {
    pub first_tag: String,
    pub first_block: String,
    pub second_tag: String,
    pub second_block: String,
}

/// The rendered result of a finished match.
pub struct FinalSummary {
    pub description: String,
    pub minutes: u32,
    pub scores: Option<ScoreFields>,
}

/// Score blocks are shown for a one-versus-one match with at least two score records.
pub open spec fn has_score_fields(d: &MatchDetail) -> bool {
    d.match_data.game_mode == MODE_SOLO && d.player_scores@.len() > 1
}

/// The score records of a finished one-versus-one match, ordered as the teams are:
/// the provider's order is kept when its first record belongs to the first team's
/// player, and swapped otherwise.
pub open spec fn scores_in_team_order(d: &MatchDetail) -> (PlayerScore, PlayerScore) {
    let s = d.player_scores@;
    if slot(&d.match_data, 0, 0).battle_tag@ == s[0].battle_tag@ {
        (s[0], s[1])
    } else {
        (s[1], s[0])
    }
}

/// `f` holds the score blocks of `first` and `second`, in this order.
pub open spec fn fields_show(f: ScoreFields, first: PlayerScore, second: PlayerScore) -> bool {
    f.first_tag@ == first.battle_tag@ && f.first_block@ == score_text(first) && f.second_tag@
        == second.battle_tag@ && f.second_block@ == score_text(second)
}

/// Renders a finished match: its summary, its duration in whole minutes, and for a
/// one-versus-one match with score records, both players' score blocks in team order.
/// `None` when the mode is not tracked or the slots that it reads are missing.
pub fn render_final(d: &MatchDetail, labels: &Labels) -> (r: Option<FinalSummary>)
    ensures
        r is Some <==> well_shaped(&d.match_data),
        r matches Some(f) ==> {
            &&& f.description@ == final_text(&d.match_data, labels)
            &&& f.minutes == d.match_data.duration_in_seconds / 60
            &&& f.scores is Some <==> has_score_fields(d)
            &&& f.scores matches Some(sf) ==> fields_show(
                sf,
                scores_in_team_order(d).0,
                scores_in_team_order(d).1,
            )
        },
{
    let m = &d.match_data;
    if !is_well_shaped(m) {
        return None;
    }
    let description = render_result(m, labels);
    let minutes = m.duration_in_seconds / 60;
    let scores = if m.game_mode == MODE_SOLO && d.player_scores.len() > 1 {
        let fst = &d.player_scores[0];
        let snd = &d.player_scores[1];
        let (first, second) = if m.teams[0].players[0].battle_tag == fst.battle_tag {
            (fst, snd)
        } else {
            (snd, fst)
        };
        Some(
            ScoreFields {
                first_tag: first.battle_tag.clone(),
                first_block: render_score(first),
                second_tag: second.battle_tag.clone(),
                second_block: render_score(second),
            },
        )
    } else {
        None
    };
    Some(FinalSummary { description, minutes, scores })
}

} // verus!
