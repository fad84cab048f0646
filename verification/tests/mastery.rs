use maximum_league::mastery::{
    end_of_game_mastery, inventory_mastery, mastery_candidate_ids, mastery_candidate_paths, summoner_id_from_unsigned,
    summoner_reply_is_usable, ChampionMasteryEntry, CurrentSummoner, LcuChampionMasteryEntry, MasteryAction,
    MasteryLookup,
};

fn entry(c: i64, l: i64, p: i64) -> LcuChampionMasteryEntry {
    LcuChampionMasteryEntry { champion_id: c, champion_level: l, champion_points: p }
}

#[test]
fn ids_are_summoner_id_puuid_then_current_summoner() {
    let s = CurrentSummoner { summoner_id: 123, puuid: Some("  ab-cd \n".to_string()) };
    assert_eq!(mastery_candidate_ids(&s), vec!["123", "ab-cd", "current-summoner"]);
    let s = CurrentSummoner { summoner_id: 0, puuid: Some("   ".to_string()) };
    assert_eq!(mastery_candidate_ids(&s), vec!["current-summoner"]);
    let s = CurrentSummoner { summoner_id: -5, puuid: None };
    assert_eq!(mastery_candidate_ids(&s), vec!["-5", "current-summoner"]);
}

#[test]
fn paths_fill_each_template_with_each_id() {
    let ids = vec!["7".to_string(), "current-summoner".to_string()];
    let paths = mastery_candidate_paths(&ids);
    assert_eq!(paths, vec![
        "/lol-collections/v1/inventories/7/champion-mastery",
        "/lol-collections/v1/inventories/7/champion-mastery/top",
        "/lol-champions/v1/inventories/7/champion-mastery",
        "/lol-champions/v1/inventories/7/champion-mastery/top",
        "/lol-collections/v1/inventories/current-summoner/champion-mastery",
        "/lol-collections/v1/inventories/current-summoner/champion-mastery/top",
        "/lol-champions/v1/inventories/current-summoner/champion-mastery",
        "/lol-champions/v1/inventories/current-summoner/champion-mastery/top",
    ]);
}

#[test]
fn lookup_moves_on_until_an_inventory_answers() {
    let s = CurrentSummoner { summoner_id: 0, puuid: None };
    let mut l = MasteryLookup::new(&s);
    assert_eq!(l.current_path(), "/lol-collections/v1/inventories/current-summoner/champion-mastery");
    assert_eq!(l.on_reply(&Ok((404, String::new()))), MasteryAction::Continue);
    assert_eq!(l.current_path(), "/lol-collections/v1/inventories/current-summoner/champion-mastery/top");
    assert_eq!(l.on_reply(&Err("boom".to_string())), MasteryAction::Continue);
    assert_eq!(l.on_reply(&Ok((200, "[]".to_string()))), MasteryAction::DecodeInventory);
}

#[test]
fn lookup_stops_with_nothing_on_empty_200() {
    let s = CurrentSummoner { summoner_id: 0, puuid: None };
    let mut l = MasteryLookup::new(&s);
    assert_eq!(l.on_reply(&Ok((200, "null".to_string()))), MasteryAction::NoMastery);
}

#[test]
fn lookup_falls_back_to_end_of_game() {
    let s = CurrentSummoner { summoner_id: 0, puuid: None };
    let mut l = MasteryLookup::new(&s);
    for _ in 0..4 {
        assert_eq!(l.on_reply(&Ok((500, String::new()))), MasteryAction::Continue);
    }
    assert_eq!(l.current_path(), "/lol-end-of-game/v1/champion-mastery-updates");
    assert_eq!(l.on_reply(&Ok((200, "[{}]".to_string()))), MasteryAction::DecodeEndOfGame);

    let mut l = MasteryLookup::new(&s);
    for _ in 0..4 {
        l.on_reply(&Ok((500, String::new())));
    }
    assert_eq!(l.on_reply(&Ok((404, "x".to_string()))), MasteryAction::NoMastery);
}

#[test]
fn decoded_mastery() {
    let m = inventory_mastery(Ok(vec![entry(1, 7, 100), entry(2, 5, 50)])).unwrap();
    assert_eq!(m, vec![
        ChampionMasteryEntry { champion_id: 1, champion_level: 7, champion_points: 100 },
        ChampionMasteryEntry { champion_id: 2, champion_level: 5, champion_points: 50 },
    ]);
    assert_eq!(inventory_mastery(Err("bad".to_string())).unwrap_err(), "Invalid mastery JSON: bad");
    assert!(end_of_game_mastery(Err("bad".to_string())).is_empty());
    assert_eq!(end_of_game_mastery(Ok(vec![entry(3, 1, 2)])).len(), 1);
}

#[test]
fn summoner_ids_and_replies() {
    assert_eq!(summoner_id_from_unsigned(5), 5);
    assert_eq!(summoner_id_from_unsigned(u64::MAX), -1);
    assert_eq!(summoner_id_from_unsigned(1u64 << 63), i64::MIN);
    assert!(summoner_reply_is_usable(200, "{}"));
    assert!(!summoner_reply_is_usable(200, "null"));
    assert!(!summoner_reply_is_usable(200, ""));
    assert!(!summoner_reply_is_usable(404, "{}"));
}
