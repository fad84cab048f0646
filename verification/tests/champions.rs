use maximum_league::champions::{champion_masterdata, invalid_summary_message, CommunityDragonChampion};

fn champ(id: i64, name: &str, roles: &[&str]) -> CommunityDragonChampion {
    CommunityDragonChampion { id, name: name.to_string(), roles: roles.iter().map(|r| r.to_string()).collect() }
}

#[test]
fn masterdata_keeps_positive_ids_in_order() {
    let raw = vec![champ(-1, "None", &[]), champ(266, "Aatrox", &["fighter", "tank"]), champ(0, "Zero", &["x"]), champ(103, "Ahri", &["mage"])];
    let m = champion_masterdata(raw);
    assert_eq!(m.len(), 2);
    assert_eq!((m[0].id, m[0].name.as_str()), (266, "Aatrox"));
    assert_eq!(m[0].roles, vec!["fighter".to_string(), "tank".to_string()]);
    assert_eq!((m[1].id, m[1].name.as_str()), (103, "Ahri"));
    assert_eq!(m[1].roles, vec!["mage".to_string()]);
    assert!(champion_masterdata(vec![]).is_empty());
    assert_eq!(invalid_summary_message("x"), "Invalid champion-summary JSON: x");
}
