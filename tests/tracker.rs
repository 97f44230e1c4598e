use amadeus::model::{
    MatchDetail, MatchRecord, PlayerScore, PlayerSlot, RosterEntry, Team, MODE_ARRANGED_TEAM,
    MODE_RANDOM_TEAM, MODE_SOLO,
};
use amadeus::render::{render_final, render_footer, render_live, render_score};
use amadeus::roster::{match_roster, resolve_match_id};
use amadeus::store::Store;
use amadeus::text::{signed_text, Labels, MapLabel, RaceLabel};

fn player(tag: &str, name: &str, race: u32, mmr: i64, gain: i64, won: bool) -> PlayerSlot {
    PlayerSlot {
        battle_tag: tag.to_string(),
        name: name.to_string(),
        race,
        old_mmr: mmr,
        mmr_gain: gain,
        won,
    }
}

fn team(players: Vec<PlayerSlot>, won: bool) -> Team {
    Team { players, won }
}

fn record(start: &str, mode: u32, teams: Vec<Team>) -> MatchRecord {
    MatchRecord {
        id: format!("id-{}", start),
        start_time: start.to_string(),
        game_mode: mode,
        map: "echoisles".to_string(),
        teams,
        duration_in_seconds: 754,
    }
}

fn solo(start: &str, a: &str, b: &str) -> MatchRecord {
    record(
        start,
        MODE_SOLO,
        vec![
            team(vec![player(a, "Alice", 1, 1500, 20, true)], true),
            team(vec![player(b, "Bob", 2, 1480, -20, false)], false),
        ],
    )
}

fn pair(start: &str, mode: u32, tags: [&str; 4], first_won: bool) -> MatchRecord {
    record(
        start,
        mode,
        vec![
            team(
                vec![
                    player(tags[0], "A1", 1, 1600, 15, first_won),
                    player(tags[1], "A2", 4, 1610, 16, first_won),
                ],
                first_won,
            ),
            team(
                vec![
                    player(tags[2], "B1", 2, 1590, -15, !first_won),
                    player(tags[3], "B2", 8, 1580, -14, !first_won),
                ],
                !first_won,
            ),
        ],
    )
}

fn labels() -> Labels {
    Labels {
        races: vec![
            RaceLabel { code: 1, label: "Human".to_string() },
            RaceLabel { code: 2, label: "Orc".to_string() },
            RaceLabel { code: 4, label: "Night Elf".to_string() },
            RaceLabel { code: 8, label: "Undead".to_string() },
        ],
        maps: vec![MapLabel { id: "echoisles".to_string(), label: "Echo Isles".to_string() }],
    }
}

fn roster() -> Vec<RosterEntry> {
    vec![
        RosterEntry { battletag: "alice#1".to_string(), discord: 11, streams: vec![] },
        RosterEntry { battletag: "bob#2".to_string(), discord: 22, streams: vec![] },
    ]
}

fn score(tag: &str, n: u64) -> PlayerScore {
    PlayerScore {
        battle_tag: tag.to_string(),
        units_produced: n,
        units_killed: n + 1,
        gold_collected: n * 100,
        exp_gained: n * 10,
    }
}

#[test]
fn signed_numbers_render_in_decimal() {
    assert_eq!(signed_text(0), "0");
    assert_eq!(signed_text(20), "20");
    assert_eq!(signed_text(-20), "-20");
    assert_eq!(signed_text(1234567), "1234567");
    assert_eq!(signed_text(i64::MIN), "-9223372036854775808");
    assert_eq!(signed_text(i64::MAX), "9223372036854775807");
}

#[test]
fn footer_shows_minutes() {
    assert_eq!(render_footer(12), "Passed: 12 min");
    assert_eq!(render_footer(0), "Passed: 0 min");
}

#[test]
fn unknown_labels_fall_back_to_raw_values() {
    let mut m = solo("T1", "alice#1", "x#9");
    m.map = "nowhere".to_string();
    m.teams[1].players[0].race = 16;
    let text = render_live(&m, &labels());
    assert_eq!(text, "(Human) **Alice** [1500] *vs* (16) **Bob** [1480] *nowhere*");
}

#[test]
fn roster_matches_solo_first_slots() {
    let r = roster();
    assert_eq!(match_roster(&solo("T1", "x#9", "bob#2"), &r), Some((1, false)));
    assert_eq!(match_roster(&solo("T1", "alice#1", "y#8"), &r), Some((0, false)));
    assert_eq!(match_roster(&solo("T1", "x#9", "y#8"), &r), None);
}

#[test]
fn roster_tie_break_follows_roster_order() {
    let r = roster();
    assert_eq!(match_roster(&solo("T1", "bob#2", "alice#1"), &r), Some((0, false)));
}

#[test]
fn roster_matches_any_team_slot() {
    let r = roster();
    let m = pair("T2", MODE_ARRANGED_TEAM, ["x#1", "y#2", "z#3", "bob#2"], true);
    assert_eq!(match_roster(&m, &r), Some((1, true)));
    let m = pair("T3", MODE_RANDOM_TEAM, ["x#1", "alice#1", "z#3", "w#4"], true);
    assert_eq!(match_roster(&m, &r), Some((0, true)));
}

#[test]
fn roster_ignores_other_modes_and_short_teams() {
    let r = roster();
    let mut m = solo("T1", "alice#1", "bob#2");
    m.game_mode = 5;
    assert_eq!(match_roster(&m, &r), None);
    let mut m = pair("T2", MODE_ARRANGED_TEAM, ["alice#1", "y#2", "z#3", "w#4"], true);
    m.teams[1].players.pop();
    assert_eq!(match_roster(&m, &r), None);
    let mut m = solo("T1", "alice#1", "bob#2");
    m.teams.pop();
    assert_eq!(match_roster(&m, &r), None);
}

#[test]
fn live_summary_solo() {
    let text = render_live(&solo("T1", "alice#1", "x#9"), &labels());
    assert_eq!(text, "(Human) **Alice** [1500] *vs* (Orc) **Bob** [1480] *Echo Isles*");
}

#[test]
fn live_summary_arranged_team() {
    let m = pair("T2", MODE_ARRANGED_TEAM, ["a", "b", "c", "d"], true);
    assert_eq!(
        render_live(&m, &labels()),
        "(Human+Night Elf) **A1** + **A2** [1600]\n*vs*\n(Orc+Undead) **B1** + **B2** [1590]\n\nmap: **Echo Isles**"
    );
}

#[test]
fn live_summary_random_team() {
    let m = pair("T3", MODE_RANDOM_TEAM, ["a", "b", "c", "d"], true);
    assert_eq!(
        render_live(&m, &labels()),
        "(Human+Night Elf) **A1** [1600] + **A2** [1610]\n*vs*\n(Orc+Undead) **B1** [1590] + **B2** [1580]\n\nmap: **Echo Isles**"
    );
}

#[test]
fn live_summary_is_stable_across_renders() {
    let l = labels();
    let m = solo("T1", "alice#1", "x#9");
    let first = render_live(&m, &l);
    for _ in 0..5 {
        assert_eq!(render_live(&m, &l), first);
    }
    let copy = solo("T1", "alice#1", "x#9");
    assert_eq!(render_live(&copy, &l), first);
}

#[test]
fn final_summary_solo_fixture() {
    let d = MatchDetail { match_data: solo("T1", "alice#1", "x#9"), player_scores: vec![] };
    let f = render_final(&d, &labels()).expect("a solo match renders");
    assert_eq!(
        f.description,
        "(Human) __**Alice**__ **+20** [1500] *vs* (Orc) __*Bob*__ **-20** [1480] *Echo Isles*"
    );
    assert!(f.description.contains("Alice") && f.description.contains("Bob"));
    assert!(f.description.contains("Human") && f.description.contains("Orc"));
    assert!(f.description.contains("+20") && f.description.contains("Echo Isles"));
    assert!(f.description.contains("__**Alice**__") && f.description.contains("__*Bob*__"));
    assert_eq!(f.minutes, 12);
    assert!(f.scores.is_none());
}

#[test]
fn final_summary_arranged_team_second_wins() {
    let m = pair("T2", MODE_ARRANGED_TEAM, ["a", "b", "c", "d"], false);
    let d = MatchDetail { match_data: m, player_scores: vec![] };
    let f = render_final(&d, &labels()).expect("renders");
    assert_eq!(
        f.description,
        "(Human+Night Elf) __*A1 + A2 [1600]*__ *15* (lost)\n*vs*\n(Orc+Undead) __**B1 + B2 [1590]**__ **+-15** (won)\n\nmap: **Echo Isles**"
    );
}

#[test]
fn final_summary_random_team_first_wins() {
    let m = pair("T3", MODE_RANDOM_TEAM, ["a", "b", "c", "d"], true);
    let d = MatchDetail { match_data: m, player_scores: vec![] };
    let f = render_final(&d, &labels()).expect("renders");
    assert_eq!(
        f.description,
        "(Human+Night Elf) __**A1 [1600]**__ **+15** + __**A2 [1610]**__ **+16** (won)\n*vs*\n(Orc+Undead) __*B1 [1590]*__ *-15* + __*B2 [1580]*__ *-14* (lost)\n\nmap: **Echo Isles**"
    );
}

#[test]
fn final_summary_rejects_untracked_mode() {
    let mut m = solo("T1", "alice#1", "x#9");
    m.game_mode = 4;
    let d = MatchDetail { match_data: m, player_scores: vec![score("alice#1", 1), score("x#9", 2)] };
    assert!(render_final(&d, &labels()).is_none());
}

#[test]
fn score_block_text() {
    assert_eq!(render_score(&score("t", 7)), "produced: 7\nkilled: 8\ngold: 700\nhero exp: 70");
}

#[test]
fn score_blocks_follow_team_order() {
    let d = MatchDetail {
        match_data: solo("T1", "alice#1", "x#9"),
        player_scores: vec![score("x#9", 3), score("alice#1", 5)],
    };
    let f = render_final(&d, &labels()).expect("renders");
    let s = f.scores.expect("two score records");
    assert_eq!(s.first_tag, "alice#1");
    assert_eq!(s.first_block, "produced: 5\nkilled: 6\ngold: 500\nhero exp: 50");
    assert_eq!(s.second_tag, "x#9");
    assert_eq!(s.second_block, "produced: 3\nkilled: 4\ngold: 300\nhero exp: 30");

    let d = MatchDetail {
        match_data: solo("T1", "alice#1", "x#9"),
        player_scores: vec![score("alice#1", 5), score("x#9", 3)],
    };
    let s = render_final(&d, &labels()).unwrap().scores.unwrap();
    assert_eq!(s.first_tag, "alice#1");
    assert_eq!(s.second_tag, "x#9");
}

#[test]
fn canonical_id_found_by_start_time_and_roster() {
    let r = roster();
    let recent = vec![solo("T0", "alice#1", "x#9"), solo("T1", "x#9", "y#8"), solo("T1", "bob#2", "y#8")];
    let key = "T1".to_string();
    assert_eq!(resolve_match_id(&recent, &key, &r), Some("id-T1".to_string()));
    assert_eq!(resolve_match_id(&recent, &"T7".to_string(), &r), None);
    let only_unknown = vec![solo("T1", "x#9", "y#8")];
    assert_eq!(resolve_match_id(&only_unknown, &key, &r), None);
}

#[test]
fn new_match_is_announced_then_recorded() {
    let r = roster();
    let l = labels();
    let mut store = Store::new();
    let ongoing = vec![solo("T1", "alice#1", "x#9"), solo("T9", "x#9", "y#8")];
    let plan = store.check(&ongoing, &r, &l);
    assert_eq!(plan.starts.len(), 1);
    assert!(plan.updates.is_empty());
    assert!(plan.pending.is_empty());
    let start = &plan.starts[0];
    assert_eq!(start.key, "T1");
    assert_eq!(start.owner, 11);
    assert_eq!(start.player, 0);
    assert_eq!(start.description, "(Human) **Alice** [1500] *vs* (Orc) **Bob** [1480] *Echo Isles*");
    assert_eq!(store.len(), 0);
    assert!(store.record_start(start.key.clone(), 777, start.owner));
    let t = store.get(&"T1".to_string()).expect("recorded");
    assert_eq!(t.age_ticks, 0);
    assert!(t.seen_this_cycle);
    assert_eq!(t.message_ref, 777);
    assert_eq!(t.owner, 11);
}

#[test]
fn one_record_per_key() {
    let mut store = Store::new();
    assert!(store.record_start("T1".to_string(), 1, 11));
    assert!(!store.record_start("T1".to_string(), 2, 22));
    assert_eq!(store.len(), 1);
    assert_eq!(store.get(&"T1".to_string()).unwrap().message_ref, 1);
    let r = roster();
    let ongoing = vec![solo("T1", "alice#1", "x#9"), solo("T1", "alice#1", "x#9")];
    let plan = store.check(&ongoing, &r, &labels());
    assert!(plan.starts.is_empty());
    assert_eq!(plan.updates.len(), 2);
    assert_eq!(store.len(), 1);
}

#[test]
fn tracked_match_gets_live_update() {
    let r = roster();
    let l = labels();
    let mut store = Store::new();
    store.record_start("T1".to_string(), 5, 11);
    for _ in 0..7 {
        store.age(666);
    }
    let plan = store.check(&vec![solo("T1", "alice#1", "x#9")], &r, &l);
    assert!(plan.starts.is_empty());
    assert_eq!(plan.updates.len(), 1);
    let u = &plan.updates[0];
    assert_eq!(u.key, "T1");
    assert_eq!(u.message_ref, 5);
    assert_eq!(u.owner, 11);
    assert_eq!(u.footer, "Passed: 3 min");
    assert_eq!(u.description, render_live(&solo("T1", "alice#1", "x#9"), &l));
    assert!(plan.pending.is_empty());
    assert!(store.get(&"T1".to_string()).unwrap().seen_this_cycle);
}

#[test]
fn empty_ongoing_list_changes_nothing() {
    let mut store = Store::new();
    store.record_start("T1".to_string(), 5, 11);
    store.age(666);
    let before = store.get(&"T1".to_string()).unwrap();
    let plan = store.check(&vec![], &roster(), &labels());
    assert!(plan.starts.is_empty() && plan.updates.is_empty() && plan.pending.is_empty());
    let after = store.get(&"T1".to_string()).unwrap();
    assert_eq!(after.age_ticks, before.age_ticks);
    assert_eq!(after.seen_this_cycle, before.seen_this_cycle);
}

#[test]
fn vanished_match_pending_until_resolved() {
    let r = roster();
    let l = labels();
    let mut store = Store::new();
    store.record_start("T1".to_string(), 5, 11);
    let plan = store.check(&vec![solo("T2", "x#9", "y#8")], &r, &l);
    assert_eq!(plan.pending, vec!["T1".to_string()]);
    assert_eq!(store.get(&"T1".to_string()).unwrap().age_ticks, 0);
    let key = "T1".to_string();
    let detail = Some(MatchDetail { match_data: solo("T1", "alice#1", "x#9"), player_scores: vec![] });
    let post = store.final_post(&key, &detail, &l).expect("pending with detail");
    assert_eq!(post.message_ref, 5);
    assert_eq!(post.owner, 11);
    assert_eq!(post.footer, "Passed: 12 min");
    assert!(post.description.contains("**+20**"));
    assert!(store.resolve(&key));
    assert!(store.get(&key).is_none());
    let evicted = store.age(666);
    assert!(evicted.is_empty());
    assert_eq!(store.len(), 0);
}

#[test]
fn vanished_match_without_detail_stays_and_ages() {
    let r = roster();
    let l = labels();
    let mut store = Store::new();
    store.record_start("T1".to_string(), 5, 11);
    store.check(&vec![solo("T2", "x#9", "y#8")], &r, &l);
    let key = "T1".to_string();
    assert!(store.final_post(&key, &None, &l).is_none());
    assert_eq!(store.get(&key).unwrap().age_ticks, 0);
    store.age(666);
    assert_eq!(store.get(&key).unwrap().age_ticks, 1);
}

#[test]
fn seen_match_is_not_resolved() {
    let l = labels();
    let mut store = Store::new();
    store.record_start("T1".to_string(), 5, 11);
    let key = "T1".to_string();
    let detail = Some(MatchDetail { match_data: solo("T1", "alice#1", "x#9"), player_scores: vec![] });
    assert!(store.final_post(&key, &detail, &l).is_none());
    assert!(!store.resolve(&key));
    assert_eq!(store.len(), 1);
}

#[test]
fn ceiling_entry_is_evicted_next_aging() {
    let mut store = Store::new();
    store.record_start("T1".to_string(), 5, 11);
    store.record_start("T2".to_string(), 6, 22);
    for _ in 0..3 {
        assert!(store.age(3).is_empty());
    }
    assert_eq!(store.get(&"T1".to_string()).unwrap().age_ticks, 3);
    let evicted = store.age(3);
    assert_eq!(evicted, vec!["T1".to_string(), "T2".to_string()]);
    assert_eq!(store.len(), 0);
    assert!(!store.resolve(&"T1".to_string()));
}

#[test]
fn start_poll_fail_age_then_evict_scenario() {
    let r = roster();
    let l = labels();
    let mut store = Store::new();
    let key = "T1".to_string();
    let plan = store.check(&vec![solo("T1", "alice#1", "x#9")], &r, &l);
    assert_eq!(plan.starts.len(), 1);
    assert_eq!(plan.starts[0].key, key);
    assert!(store.record_start(key.clone(), 42, plan.starts[0].owner));
    assert_eq!(store.get(&key).unwrap().age_ticks, 0);

    let plan = store.check(&vec![solo("T5", "x#9", "y#8")], &r, &l);
    assert_eq!(plan.pending, vec![key.clone()]);
    assert!(store.final_post(&key, &None, &l).is_none());
    assert_eq!(store.get(&key).unwrap().age_ticks, 0);

    store.age(666);
    assert_eq!(store.get(&key).unwrap().age_ticks, 1);

    for _ in 1..666 {
        let plan = store.check(&vec![solo("T5", "x#9", "y#8")], &r, &l);
        assert_eq!(plan.pending, vec![key.clone()]);
        assert!(store.final_post(&key, &None, &l).is_none());
        assert!(store.age(666).is_empty());
    }
    assert_eq!(store.get(&key).unwrap().age_ticks, 666);
    assert_eq!(store.age(666), vec![key.clone()]);
    assert!(store.get(&key).is_none());
    let plan = store.check(&vec![solo("T5", "x#9", "y#8")], &r, &l);
    assert!(plan.pending.is_empty() && plan.updates.is_empty() && plan.starts.is_empty());
    let detail = Some(MatchDetail { match_data: solo("T1", "alice#1", "x#9"), player_scores: vec![] });
    assert!(store.final_post(&key, &detail, &l).is_none());
}
