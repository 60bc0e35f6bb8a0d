use fortress::experience_code::{DecodeError, ExperienceCode};
use fortress::record::{
    Experience, MapRotation, MapRotationEntry, OriginalPlayground, PlaygroundInfo, Timestamp,
};

fn full_playground() -> PlaygroundInfo {
    PlaygroundInfo {
        original_playground: Some(OriginalPlayground {
            playground_name: "Rush Forever".to_string(),
            playground_description: "All rush, all day".to_string(),
            created_at: Some(Timestamp { seconds: 1_600_000_000, nanos: 500 }),
            updated_at: Some(Timestamp { seconds: 1_700_000_000, nanos: 0 }),
            map_rotation: Some(MapRotation {
                maps: vec![
                    MapRotationEntry {
                        mapname: "Orbital".to_string(),
                        game_size: 64,
                        mode: "Rush".to_string(),
                    },
                    MapRotationEntry {
                        mapname: "Discarded".to_string(),
                        game_size: 32,
                        mode: "Rush".to_string(),
                    },
                ],
            }),
        }),
        tags_json: "[\"rush\"]".to_string(),
        progression_json: "{}".to_string(),
        raw_json: "{\"playground\":{}}".to_string(),
    }
}

#[test]
fn builds_the_full_row() {
    let now = Timestamp { seconds: 1_710_000_000, nanos: 1 };
    let code = ExperienceCode::from_u32(5);
    let e: Experience = Experience::init_standalone(code, full_playground(), now).unwrap();
    assert_eq!(e.experience_id, 5);
    assert_eq!(e.share_code, "AAF");
    assert_eq!(e.playground_name, "Rush Forever");
    assert_eq!(e.playground_description, "All rush, all day");
    assert_eq!(e.playground_created_at, Timestamp { seconds: 1_600_000_000, nanos: 500 });
    assert_eq!(e.playground_updated_at, Timestamp { seconds: 1_700_000_000, nanos: 0 });
    assert_eq!(e.playground_data, "{\"playground\":{}}");
    assert_eq!(e.tags, "[\"rush\"]");
    assert_eq!(e.progression_mode, "{}");
    assert_eq!(e.created_at, now);
    assert_eq!(e.updated_at, now);
    assert_eq!(e.maps, vec![Some("Orbital".to_string()), Some("Discarded".to_string())]);
    assert_eq!(e.game_sizes, vec![Some(64), Some(32)]);
    assert_eq!(e.modes, vec![Some("Rush".to_string()), Some("Rush".to_string())]);
}

#[test]
fn absent_payload_parts_fall_back_to_empty() {
    let now = Timestamp { seconds: 9, nanos: 0 };
    let code = ExperienceCode::from_u32(1);
    let bare = PlaygroundInfo {
        original_playground: None,
        tags_json: "null".to_string(),
        progression_json: "null".to_string(),
        raw_json: "{}".to_string(),
    };
    let e = Experience::init_standalone(code, bare, now).unwrap();
    assert_eq!(e.experience_id, 1);
    assert_eq!(e.playground_name, "");
    assert_eq!(e.playground_description, "");
    assert_eq!(e.playground_created_at, Timestamp { seconds: 0, nanos: 0 });
    assert_eq!(e.playground_updated_at, Timestamp { seconds: 0, nanos: 0 });
    assert!(e.maps.is_empty());
    assert!(e.game_sizes.is_empty());
    assert!(e.modes.is_empty());
}

#[test]
fn bad_code_fails_the_row() {
    let now = Timestamp { seconds: 0, nanos: 0 };
    let code = ExperienceCode::from_code_str("A!A");
    assert!(matches!(
        Experience::init_standalone(code, full_playground(), now),
        Err(DecodeError::UnknownSymbol { symbol: '!', position: 0 })
    ));
}

#[test]
fn minimal_row_leaves_extended_columns_empty() {
    let code = ExperienceCode::from_u32(2);
    let e = Experience::init(code, full_playground()).unwrap();
    assert_eq!(e.experience_id, 2);
    assert_eq!(e.share_code, "AAC");
    assert_eq!(e.playground_name, "Rush Forever");
    assert_eq!(e.playground_data, "{\"playground\":{}}");
    assert_eq!(e.tags, "");
    assert_eq!(e.progression_mode, "");
    assert!(e.maps.is_empty());
}

#[test]
fn duplicate_copies_every_column() {
    let now = Timestamp { seconds: 3, nanos: 4 };
    let code = ExperienceCode::from_u32(9);
    let e = Experience::init_standalone(code, full_playground(), now).unwrap();
    let d = e.duplicate();
    assert_eq!(d.experience_id, e.experience_id);
    assert_eq!(d.share_code, e.share_code);
    assert_eq!(d.playground_name, e.playground_name);
    assert_eq!(d.maps, e.maps);
    assert_eq!(d.game_sizes, e.game_sizes);
    assert_eq!(d.modes, e.modes);
}
