use idota::draft::{Draft, DraftDetails, DraftError, Team};
use idota::json::{JsonEntry, JsonValue};

/// The value the draft reader sees for a parsed JSON document.
fn to_json_value(v: &serde_json::Value) -> JsonValue {
    match v {
        serde_json::Value::Null => JsonValue::Null,
        serde_json::Value::Bool(b) => JsonValue::Bool(*b),
        serde_json::Value::Number(n) => match n.as_i64() {
            Some(i) => JsonValue::Int(i),
            None => JsonValue::Number,
        },
        serde_json::Value::String(s) => JsonValue::Str(s.clone()),
        serde_json::Value::Array(_) => JsonValue::Array,
        serde_json::Value::Object(m) => JsonValue::Object(
            m.iter()
                .map(|(k, v)| JsonEntry { key: k.clone(), value: to_json_value(v) })
                .collect(),
        ),
    }
}

fn parse_draft(json: &str) -> Result<Draft, DraftError> {
    let value: serde_json::Value = serde_json::from_str(json).expect("invalid JSON");
    Draft::from_json(&to_json_value(&value))
}

#[test]
fn test_draft_deserialize_with_bans() {
    let json = r#"{
        "activeteam": 2,
        "pick": true,
        "activeteam_time_remaining": 10,
        "radiant_bonus_time": 118,
        "dire_bonus_time": 117,
        "team2": {
            "home_team": false,
            "pick0_id": 19,
            "pick0_class": "tiny",
            "pick1_id": 0,
            "pick1_class": "",
            "ban0_id": 135,
            "ban0_class": "dawnbreaker",
            "ban1_id": 101,
            "ban1_class": "skywrath_mage"
        },
        "team3": {
            "home_team": true,
            "pick0_id": 136,
            "pick0_class": "marci",
            "pick1_id": 78,
            "pick1_class": "brewmaster",
            "ban0_id": 92,
            "ban0_class": "visage",
            "ban1_id": 22,
            "ban1_class": "zuus"
        }
    }"#;

    let draft: Draft = parse_draft(json).expect("Failed to deserialize Draft");

    assert_eq!(draft.active_team, 2);
    assert!(draft.pick);
    assert_eq!(draft.active_team_remaining_time, 10);
    assert_eq!(draft.radiant_bonus_time, 118);
    assert_eq!(draft.dire_bonus_time, 117);

    // team2 = Radiant
    let radiant = draft.team(Team::Radiant).expect("No Radiant team");
    assert!(!radiant.is_home_team);
    // pick1 is empty (id=0, class=""), should be filtered out
    assert_eq!(radiant.picks.len(), 1);
    assert_eq!(radiant.picks[&0].hero_id, 19);
    assert_eq!(radiant.picks[&0].hero_class, "tiny");
    assert_eq!(radiant.bans.len(), 2);
    assert_eq!(radiant.bans[&0].hero_id, 135);
    assert_eq!(radiant.bans[&0].hero_class, "dawnbreaker");
    assert_eq!(radiant.bans[&1].hero_id, 101);
    assert_eq!(radiant.bans[&1].hero_class, "skywrath_mage");

    // team3 = Dire
    let dire = draft.team(Team::Dire).expect("No Dire team");
    assert!(dire.is_home_team);
    assert_eq!(dire.picks.len(), 2);
    assert_eq!(dire.picks[&0].hero_class, "marci");
    assert_eq!(dire.picks[&1].hero_class, "brewmaster");
    assert_eq!(dire.bans.len(), 2);
    assert_eq!(dire.bans[&0].hero_class, "visage");
    assert_eq!(dire.bans[&1].hero_class, "zuus");
}

#[test]
fn test_empty_slots_filtered() {
    let json = r#"{
        "activeteam": 2,
        "pick": true,
        "activeteam_time_remaining": 25,
        "radiant_bonus_time": 130,
        "dire_bonus_time": 130,
        "team2": {
            "home_team": false,
            "pick0_id": 19,
            "pick0_class": "tiny",
            "pick1_id": 0,
            "pick1_class": "",
            "pick2_id": 0,
            "pick2_class": ""
        }
    }"#;

    let draft: Draft = parse_draft(json).expect("Failed to deserialize");
    let radiant = draft.team(Team::Radiant).expect("No Radiant team");
    assert_eq!(radiant.picks.len(), 1, "Empty slots should be filtered out");
    assert_eq!(radiant.bans.len(), 0);
}

#[test]
fn test_empty_draft_deserialize() {
    let json = r#"{
        "activeteam": 0,
        "pick": true,
        "activeteam_time_remaining": 0,
        "radiant_bonus_time": 0,
        "dire_bonus_time": 0
    }"#;

    let draft: Draft = parse_draft(json).expect("Failed to deserialize empty Draft");
    assert!(draft.teams.is_empty());
}

#[test]
fn missing_fields_default_to_zero_and_false() {
    let draft = parse_draft("{}").unwrap();
    assert_eq!(draft.active_team, 0);
    assert!(!draft.pick);
    assert_eq!(draft.active_team_remaining_time, 0);
    assert_eq!(draft.radiant_bonus_time, 0);
    assert_eq!(draft.dire_bonus_time, 0);
    assert!(draft.teams.is_empty());
}

#[test]
fn wrongly_typed_fields_default() {
    let draft = parse_draft(
        r#"{"activeteam": "2", "pick": 1, "radiant_bonus_time": 1.5, "dire_bonus_time": null}"#,
    )
    .unwrap();
    assert_eq!(draft.active_team, 0);
    assert!(!draft.pick);
    assert_eq!(draft.radiant_bonus_time, 0);
    assert_eq!(draft.dire_bonus_time, 0);
}

#[test]
fn large_numbers_truncate_to_i32() {
    let draft = parse_draft(r#"{"activeteam": 4294967298, "dire_bonus_time": -1}"#).unwrap();
    assert_eq!(draft.active_team, 2);
    assert_eq!(draft.dire_bonus_time, -1);
    // Beyond i64 the value is not an integer the reader takes.
    let draft = parse_draft(r#"{"activeteam": 18446744073709551615}"#).unwrap();
    assert_eq!(draft.active_team, 0);
}

#[test]
fn non_object_is_refused() {
    assert_eq!(parse_draft("[]"), Err(DraftError::NotAnObject));
    assert_eq!(parse_draft("3"), Err(DraftError::NotAnObject));
    assert_eq!(
        DraftDetails::from_json(&JsonValue::Str(String::from("x"))),
        Err(DraftError::NotAnObject)
    );
}

#[test]
fn non_object_team_is_skipped_and_unknown_team_is_undefined() {
    let draft = parse_draft(r#"{"team2": 5, "team4": {"pick0_id": 1, "pick0_class": "a"}}"#)
        .unwrap();
    assert!(draft.team(Team::Radiant).is_none());
    let other = draft.team(Team::Undefined).expect("team4 is kept as undefined");
    assert_eq!(other.picks[&0].hero_class, "a");
    assert_eq!(draft.teams.len(), 1);
}

#[test]
fn team_names_map_to_sides() {
    assert_eq!(Team::from_key("team2"), Team::Radiant);
    assert_eq!(Team::from_key("team3"), Team::Dire);
    assert_eq!(Team::from_key("team"), Team::Undefined);
    assert_eq!(Team::from_key("team23"), Team::Undefined);
}

#[test]
fn slot_needs_both_halves() {
    let draft = parse_draft(
        r#"{"team3": {"pick0_id": 5, "pick1_class": "axe", "ban2_id": 7, "ban2_class": 3}}"#,
    )
    .unwrap();
    let dire = draft.team(Team::Dire).unwrap();
    assert!(dire.picks.is_empty());
    assert!(dire.bans.is_empty());
    assert!(!dire.is_home_team);
}

#[test]
fn slot_index_parses_like_u8() {
    // "+1" and "01" name slot 1; "256" and "-1" name no slot. With a sorted
    // object the later key "pick1_id" overrides "pick01_id".
    let draft = parse_draft(
        r#"{"team2": {"pick+1_id": 3, "pick+1_class": "lina",
                      "pick01_id": 4, "pick1_id": 5, "pick01_class": "lion",
                      "pick256_id": 6, "pick256_class": "x",
                      "pick-1_id": 7, "pick-1_class": "y",
                      "pick_id": 8, "pick_class": "z",
                      "ban255_id": 9, "ban255_class": "pudge"}}"#,
    )
    .unwrap();
    let radiant = draft.team(Team::Radiant).unwrap();
    assert_eq!(radiant.picks.len(), 1);
    assert_eq!(radiant.picks[&1].hero_id, 5);
    assert_eq!(radiant.picks[&1].hero_class, "lion");
    assert_eq!(radiant.bans.len(), 1);
    assert_eq!(radiant.bans[&255].hero_class, "pudge");
}

#[test]
fn last_member_of_a_slot_wins() {
    let details = DraftDetails::from_object(&vec![
        JsonEntry { key: String::from("pick0_id"), value: JsonValue::Int(10) },
        JsonEntry { key: String::from("pick0_class"), value: JsonValue::Str(String::from("a")) },
        JsonEntry { key: String::from("pick0_id"), value: JsonValue::Str(String::from("oops")) },
        JsonEntry { key: String::from("ban0_id"), value: JsonValue::Int(0) },
        JsonEntry { key: String::from("ban0_class"), value: JsonValue::Str(String::from("b")) },
        JsonEntry { key: String::from("ban0_id"), value: JsonValue::Int(11) },
        JsonEntry { key: String::from("home_team"), value: JsonValue::Bool(true) },
    ]);
    assert!(details.picks.is_empty());
    assert_eq!(details.bans.len(), 1);
    assert_eq!(details.bans[&0].hero_id, 11);
    assert!(details.is_home_team);
}

#[test]
fn last_object_of_a_team_wins() {
    let team = |id: i64| JsonValue::Object(vec![
        JsonEntry { key: String::from("pick0_id"), value: JsonValue::Int(id) },
        JsonEntry { key: String::from("pick0_class"), value: JsonValue::Str(String::from("c")) },
    ]);
    let draft = Draft::from_object(&vec![
        JsonEntry { key: String::from("team2"), value: team(1) },
        JsonEntry { key: String::from("team3"), value: team(2) },
        JsonEntry { key: String::from("team2"), value: team(3) },
    ]);
    assert_eq!(draft.teams.len(), 2);
    assert_eq!(draft.team(Team::Radiant).unwrap().picks[&0].hero_id, 3);
    assert_eq!(draft.team(Team::Dire).unwrap().picks[&0].hero_id, 2);
}
