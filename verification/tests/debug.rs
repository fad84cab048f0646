use maximum_league::debug::{current_summoner_debug, path_topics};
use maximum_league::credentials::LcuCredentials;
use maximum_league::debug::{
    mastery_debug_report, mastery_probe_paths, path_parameter_names, summoner_debug_report,
    summoner_debug_status_error, swagger_failure_message, topic_path_entries, FieldPreview, JsonMember, JsonShape,
    SwaggerFetchOutcome, SwaggerSearch,
};
use maximum_league::mastery::CurrentSummoner;

#[test]
fn summoner_report_previews_each_member() {
    let members = vec![
        JsonMember { key: "displayName".to_string(), value: JsonShape::Text("Summoner Name".to_string()) },
        JsonMember { key: "puuid".to_string(), value: JsonShape::Text("short".to_string()) },
        JsonMember { key: "summonerId".to_string(), value: JsonShape::Number("42".to_string()) },
        JsonMember { key: "unnamed".to_string(), value: JsonShape::Bool(true) },
        JsonMember { key: "x".to_string(), value: JsonShape::Null },
        JsonMember { key: "y".to_string(), value: JsonShape::Array(3) },
        JsonMember { key: "z".to_string(), value: JsonShape::Object },
    ];
    let r = summoner_debug_report(Some(members)).unwrap();
    assert_eq!(r.keys, vec!["displayName", "puuid", "summonerId", "unnamed", "x", "y", "z"]);
    match &r.fields[0].preview {
        FieldPreview::Text { length, preview } => {
            assert_eq!(*length, 13);
            assert_eq!(preview, "...Name");
        }
        _ => panic!("expected text"),
    }
    match &r.fields[1].preview {
        FieldPreview::Text { length, preview } => {
            assert_eq!(*length, 5);
            assert_eq!(preview, "short");
        }
        _ => panic!("expected text"),
    }
    assert!(matches!(&r.fields[2].preview, FieldPreview::Number(n) if n == "42"));
    assert!(matches!(r.fields[3].preview, FieldPreview::Bool(true)));
    assert!(matches!(r.fields[4].preview, FieldPreview::Null));
    assert!(matches!(r.fields[5].preview, FieldPreview::Array { length: 3 }));
    assert!(matches!(r.fields[6].preview, FieldPreview::Object));
    assert_eq!(summoner_debug_report(None).err().unwrap(), "Response is not a JSON object");
}

#[test]
fn summoner_status_errors() {
    assert_eq!(summoner_debug_status_error(403), Some("current-summoner returned 403".to_string()));
    assert_eq!(summoner_debug_status_error(200), None);
}

#[test]
fn path_parameters_are_braced_segments() {
    assert_eq!(path_parameter_names("/lol-collections/v1/inventories/{summonerId}/champion-mastery/{x}"), vec!["summonerId", "x"]);
    assert_eq!(path_parameter_names("/a/{{b}}/{c/d}/{}"), vec!["b", ""]);
    assert!(path_parameter_names("").is_empty());
}

#[test]
fn topics_use_lowercase_paths() {
    let paths = vec![
        "/lol-collections/v1/inventories/{id}/Champion-Mastery".to_string(),
        "/lol-champions/v1/ChampionMastery".to_string(),
        "/lol-mastery/v1".to_string(),
        "/other".to_string(),
    ];
    let (cm, m, c) = topic_path_entries(&paths);
    assert_eq!(cm.iter().map(|e| e.path.as_str()).collect::<Vec<_>>(), vec![paths[0].as_str(), paths[1].as_str()]);
    assert_eq!(cm[0].path_parameter_names, vec!["id"]);
    assert_eq!(m.len(), 3);
    assert_eq!(c.len(), 1);
    assert_eq!(c[0].path, paths[0]);
}

#[test]
fn swagger_search_tries_v2_then_v3() {
    let mut s = SwaggerSearch::new();
    assert_eq!(s.next_url().unwrap(), "/swagger/v2/swagger.json");
    assert!(!s.on_reply(&Err("refused".to_string())));
    assert_eq!(s.next_url().unwrap(), "/swagger/v3/openapi.json");
    assert!(s.on_reply(&Ok((200, "{}".to_string()))));
    assert!(s.next_url().is_none());
    assert!(s.report(None).is_none());
    let r = s.report(Some(vec!["/lol-collections/v1/x".to_string()])).unwrap();
    assert_eq!(r.spec_url, "/swagger/v3/openapi.json");
    assert_eq!(r.swagger_fetch.len(), 2);
    assert!(matches!(&r.swagger_fetch[0].outcome, SwaggerFetchOutcome::Failed(e) if e == "refused"));
    assert!(matches!(r.swagger_fetch[1].outcome, SwaggerFetchOutcome::Fetched { status: 200, body_length: 2 }));
    assert_eq!(r.collections_paths.len(), 1);
    assert!(r.mastery_paths.is_empty());
    assert_eq!(s.fetches().len(), 2);
}

#[test]
fn swagger_empty_body_is_not_decoded() {
    let mut s = SwaggerSearch::new();
    assert!(!s.on_reply(&Ok((200, String::new()))));
    assert!(!s.on_reply(&Ok((404, "{}".to_string()))));
    assert_eq!(swagger_failure_message("[]"), "Could not load swagger (tried v2 and v3). Details: []");
}

#[test]
fn mastery_trace_lists_probes_and_attempts() {
    assert_eq!(mastery_probe_paths(9), vec![
        "/lol-collections/v1/inventories/chest-eligibility",
        "/lol-collections/v1/inventories/9/runes",
        "/lol-collections/v1/inventories/9/backdrop",
    ]);
    let creds = LcuCredentials { port: 4000, password: "p".to_string() };
    let summoner = CurrentSummoner { summoner_id: 0, puuid: None };
    let long = "x".repeat(400);
    let probes = vec![Ok((200, long.clone())), Err("down".to_string()), Ok((404, "nope".to_string()))];
    let attempts = vec![Ok((404, String::new())), Ok((200, long.clone())), Err("e".to_string()), Ok((500, "ä".repeat(200)))];
    let r = mastery_debug_report(&creds, summoner, &probes, &attempts);
    assert_eq!(r.ids_tried, vec!["current-summoner"]);
    assert_eq!(r.port, 4000);
    assert_eq!(r.probes[0].body_preview, format!("{}...", "x".repeat(150)));
    assert_eq!((r.probes[1].status, r.probes[1].body_preview.as_str()), (0, "down"));
    assert_eq!(r.attempts.len(), 4);
    assert_eq!(r.attempts[0].url, "https://127.0.0.1:4000/lol-collections/v1/inventories/current-summoner/champion-mastery");
    assert_eq!(r.attempts[0].id_used, "current-summoner");
    assert_eq!(r.attempts[1].body_preview, format!("{}...", "x".repeat(300)));
    assert_eq!(r.attempts[3].body_preview, format!("{}...", "ä".repeat(150)));
}

#[test]
fn current_summoner_debug_decodes_the_body() {
    let body = r#"{"summonerId": 42, "displayName": "Summoner Name", "tags": [1,2], "x": null, "ok": false, "o": {}}"#;
    let r = current_summoner_debug(200, body).unwrap().unwrap();
    assert_eq!(r.keys, vec!["displayName", "o", "ok", "summonerId", "tags", "x"]);
    assert!(matches!(&r.fields[0].preview, FieldPreview::Text { length: 13, preview } if preview == "...Name"));
    assert!(matches!(r.fields[1].preview, FieldPreview::Object));
    assert!(matches!(r.fields[2].preview, FieldPreview::Bool(false)));
    assert!(matches!(&r.fields[3].preview, FieldPreview::Number(n) if n == "42"));
    assert!(matches!(r.fields[4].preview, FieldPreview::Array { length: 2 }));
    assert!(matches!(r.fields[5].preview, FieldPreview::Null));
}

#[test]
fn current_summoner_debug_errors() {
    assert_eq!(current_summoner_debug(404, "{}").unwrap().err().unwrap(), "current-summoner returned 404");
    let e = current_summoner_debug(200, "{oops").unwrap().err().unwrap();
    assert!(e.starts_with("Invalid JSON: "), "{}", e);
    assert_eq!(current_summoner_debug(200, "[1]").unwrap().err().unwrap(), "Response is not a JSON object");
    // a string whose last 4 bytes start inside a character cannot be previewed
    assert!(current_summoner_debug(200, r#"{"s": "abcdefgh\u00e9\u20ac"}"#).is_none());
}

#[test]
fn swagger_report_from_body() {
    let mut s = SwaggerSearch::new();
    assert!(s.on_reply(&Ok((200, "x".to_string()))));
    let e = s.report_from_body("not json").err().unwrap();
    assert!(e.starts_with("Invalid swagger JSON: "), "{}", e);
    assert!(s.report_from_body(r#"{"info": {}}"#).unwrap().is_none());
    assert!(s.report_from_body(r#"{"paths": []}"#).unwrap().is_none());
    let r = s
        .report_from_body(r#"{"paths": {"/lol-collections/v1/{id}/champion-mastery": {}, "/b": {}}}"#)
        .unwrap()
        .unwrap();
    assert_eq!(r.spec_url, "/swagger/v2/swagger.json");
    assert_eq!(r.champion_mastery_paths.len(), 1);
    assert_eq!(r.champion_mastery_paths[0].path_parameter_names, vec!["id"]);
    assert_eq!(r.collections_paths.len(), 1);
}

#[test]
fn topics_of_a_lowercased_path() {
    assert_eq!(path_topics("/lol-champion-mastery/v1"), (true, true, false));
    assert_eq!(path_topics("/championmastery"), (true, true, false));
    assert_eq!(path_topics("/lol-collections/v1/mastery"), (false, true, true));
    assert_eq!(path_topics("/Champion-Mastery"), (false, false, false));
}
