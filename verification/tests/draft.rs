use maximum_league::draft::{
    classify_session_reply, draft_state_from_session, idle_draft_state, invalid_session_message,
    ChampSelectAction, ChampSelectBans, ChampSelectCell, ChampSelectSession, ChampSelectTimer, SessionReply,
};

fn cell(cell_id: i64, champion_id: i64) -> ChampSelectCell {
    ChampSelectCell { cell_id, champion_id }
}

fn action(actor: i64, champion: i64, kind: &str) -> ChampSelectAction {
    ChampSelectAction { champion_id: champion, actor_cell_id: actor, action_type: kind.to_string() }
}

fn session() -> ChampSelectSession {
    ChampSelectSession {
        bans: ChampSelectBans { my_team_bans: vec![], their_team_bans: vec![] },
        timer: ChampSelectTimer { phase: Some("BAN_PICK".to_string()), time_left_in_phase: Some(27_999) },
        my_team: vec![cell(0, 157), cell(1, 0), cell(2, -3)],
        their_team: vec![cell(5, 64), cell(6, 0), cell(-1, 99)],
        actions: vec![
            vec![action(0, 238, "ban"), action(5, 91, "BAN"), action(1, 0, "ban"), action(7, 12, "ban")],
            vec![action(0, 157, "pick"), action(6, 55, "Ban")],
        ],
        local_player_cell_id: Some(0),
    }
}

#[test]
fn bans_come_from_actions_when_the_session_lists_none() {
    let d = draft_state_from_session(session());
    assert!(d.in_champ_select);
    assert_eq!(d.phase, "BAN_PICK");
    assert_eq!(d.time_left_sec, Some(27));
    assert_eq!(d.my_team_bans, vec![238]);
    assert_eq!(d.their_team_bans, vec![91, 55]);
    assert_eq!(d.my_team_picks, vec![157]);
    assert_eq!(d.their_team_picks, vec![64, 99]);
    assert_eq!(d.local_player_cell_id, 0);
}

#[test]
fn listed_bans_are_kept() {
    let mut s = session();
    s.bans = ChampSelectBans { my_team_bans: vec![], their_team_bans: vec![17] };
    let d = draft_state_from_session(s);
    assert_eq!(d.my_team_bans, Vec::<i64>::new());
    assert_eq!(d.their_team_bans, vec![17]);
}

#[test]
fn actor_of_no_team_is_ignored_and_negative_cells_are_no_team() {
    let mut s = session();
    s.actions = vec![vec![action(-1, 10, "ban"), action(9, 11, "ban")]];
    let d = draft_state_from_session(s);
    assert!(d.my_team_bans.is_empty());
    assert!(d.their_team_bans.is_empty());
}

#[test]
fn missing_timer_and_local_cell() {
    let mut s = session();
    s.timer = ChampSelectTimer { phase: None, time_left_in_phase: None };
    s.local_player_cell_id = None;
    let d = draft_state_from_session(s);
    assert_eq!(d.phase, "");
    assert_eq!(d.time_left_sec, None);
    assert_eq!(d.local_player_cell_id, -1);
}

#[test]
fn session_replies_are_classified() {
    assert!(matches!(classify_session_reply(404, "{}"), SessionReply::NotInChampSelect));
    assert!(matches!(classify_session_reply(200, ""), SessionReply::NotInChampSelect));
    assert!(matches!(classify_session_reply(200, "null"), SessionReply::NotInChampSelect));
    assert!(matches!(classify_session_reply(500, ""), SessionReply::NotInChampSelect));
    match classify_session_reply(500, "oops") {
        SessionReply::Failed(m) => assert_eq!(m, "Champ select endpoint returned 500"),
        other => panic!("unexpected {:?}", other),
    }
    assert!(matches!(classify_session_reply(200, "{\"x\":1}"), SessionReply::Decode));
}

#[test]
fn idle_state_is_empty() {
    let d = idle_draft_state();
    assert!(!d.in_champ_select);
    assert_eq!(d.phase, "");
    assert_eq!(d.time_left_sec, None);
    assert!(d.my_team_bans.is_empty() && d.their_team_bans.is_empty());
    assert!(d.my_team_picks.is_empty() && d.their_team_picks.is_empty());
    assert_eq!(d.local_player_cell_id, -1);
    assert_eq!(invalid_session_message("eof"), "Invalid champ select JSON: eof");
}
