use riiv_presets::gamedirs::{create_gamedir, get_gamedirs, remove_gamedir, GameDir, GameDirError};
use riiv_presets::presets::{
    create_preset, get_path_name, get_presets, i64_display, set_game_path, set_selection,
    NotFoundError, Preset, PresetOpt, SchemaError,
};
use riiv_presets::remove_preset;
use riiv_presets::state::{from_records, to_records, AppData, AppState, DataRecords};

fn sample_preset(id: &str, created_at: i64) -> Preset {
    Preset {
        id: id.to_owned(),
        name: format!("Preset {}", id),
        options: vec![PresetOpt {
            name: "Model".to_owned(),
            selected: "Disabled".to_owned(),
            choices: vec!["Disabled".to_owned(), "A".to_owned()],
        }],
        created_at,
        game_path: "/games/g.iso".to_owned(),
        xml_path: "/mods/riivolution/pack.xml".to_owned(),
        section_name: "S".to_owned(),
    }
}

#[test]
fn test_gamedir_duplicates_rejected() {
    let mut dirs: Vec<GameDir> = Vec::new();
    assert!(create_gamedir(&mut dirs, "Mario", "/games/mario").is_ok());
    // Same path, different name: the path collision is reported.
    let r = create_gamedir(&mut dirs, "Other", "/games/mario");
    assert_eq!(r.unwrap_err(), GameDirError::DuplicatePath);
    // Same name, different path: the name collision is reported.
    let r = create_gamedir(&mut dirs, "Mario", "/games/elsewhere");
    assert_eq!(r.unwrap_err(), GameDirError::DuplicateName);
    assert_eq!(dirs.len(), 1);
    assert!(create_gamedir(&mut dirs, "Zelda", "/games/zelda").is_ok());
    let listed = get_gamedirs(&dirs);
    assert_eq!(listed.len(), 2);
    assert_eq!(listed[0].name, "Mario");
    assert_eq!(listed[1].name, "Zelda");
}

#[test]
fn test_remove_gamedir_out_of_range_is_noop() {
    let mut dirs: Vec<GameDir> = Vec::new();
    remove_gamedir(&mut dirs, 0);
    assert_eq!(dirs.len(), 0);
    assert!(create_gamedir(&mut dirs, "Mario", "/games/mario").is_ok());
    remove_gamedir(&mut dirs, 5);
    assert_eq!(dirs.len(), 1);
    remove_gamedir(&mut dirs, 0);
    assert_eq!(dirs.len(), 0);
}

#[test]
fn test_create_preset_inserts_and_overwrites() {
    let mut presets: Vec<Preset> = Vec::new();
    let xml = r#"<options><section name="S"/><option name="Model"><choice name="A"/></option></options>"#;
    create_preset(&mut presets, "id1", "First", "/mods/riivolution/a.xml", xml).unwrap();
    assert_eq!(presets.len(), 1);
    assert_eq!(presets[0].name, "First");
    assert_eq!(presets[0].game_path, "");
    assert_eq!(presets[0].options[0].choices, vec!["Disabled", "A"]);
    // Same id again: last write wins, the collection does not grow.
    create_preset(&mut presets, "id1", "Second", "/mods/riivolution/a.xml", xml).unwrap();
    assert_eq!(presets.len(), 1);
    assert_eq!(presets[0].name, "Second");
    // An empty schema is rejected and changes nothing.
    let r = create_preset(&mut presets, "id2", "Third", "/m/riivolution/b.xml", "<options/>");
    assert_eq!(r.unwrap_err(), SchemaError::EmptySchema);
    assert_eq!(presets.len(), 1);
}

#[test]
fn test_set_selection_and_misses() {
    let mut presets = vec![sample_preset("a", 1)];
    assert!(set_selection(&mut presets, "a", "Model", "A").is_ok());
    assert_eq!(presets[0].options[0].selected, "A");
    let r = set_selection(&mut presets, "missing", "Model", "A");
    assert_eq!(r.unwrap_err(), NotFoundError::PresetMissing);
    let r = set_selection(&mut presets, "a", "Ghost", "A");
    assert_eq!(r.unwrap_err(), NotFoundError::OptionMissing);
    assert_eq!(presets[0].options[0].selected, "A");
}

#[test]
fn test_set_game_path_and_lookup_name() {
    let mut presets = vec![sample_preset("a", 1)];
    let mut dirs: Vec<GameDir> = Vec::new();
    create_gamedir(&mut dirs, "Mario", "/games/mario.iso").unwrap();
    set_game_path(&mut presets, "a", "/games/mario.iso");
    assert_eq!(presets[0].game_path, "/games/mario.iso");
    assert_eq!(get_path_name(&presets, &dirs, "a").unwrap(), "Mario");
    set_game_path(&mut presets, "a", "/games/unknown.iso");
    assert!(get_path_name(&presets, &dirs, "a").is_none());
    assert!(get_path_name(&presets, &dirs, "missing").is_none());
    // A miss leaves the collection alone.
    set_game_path(&mut presets, "missing", "/games/other.iso");
    assert_eq!(presets.len(), 1);
    assert_eq!(presets[0].game_path, "/games/unknown.iso");
}

#[test]
fn test_get_presets_sorted_by_creation() {
    let presets = vec![
        sample_preset("late", 300),
        sample_preset("early", 100),
        sample_preset("middle", 200),
    ];
    let sorted = get_presets(&presets);
    assert_eq!(sorted.len(), 3);
    assert_eq!(sorted[0].id, "early");
    assert_eq!(sorted[1].id, "middle");
    assert_eq!(sorted[2].id, "late");
}

#[test]
fn test_remove_preset() {
    let mut presets = vec![sample_preset("a", 1), sample_preset("b", 2)];
    assert!(remove_preset(&mut presets, "a").is_ok());
    assert_eq!(presets.len(), 1);
    assert_eq!(presets[0].id, "b");
    let r = remove_preset(&mut presets, "a");
    assert_eq!(r.unwrap_err(), NotFoundError::PresetMissing);
}

#[test]
fn test_dirty_flag() {
    let mut st = AppState::new(AppData::new());
    assert!(!st.needs_save());
    st.mark_dirty();
    assert!(st.needs_save());
    st.clear_dirty();
    assert!(!st.needs_save());
}

fn assert_data_equal(a: &AppData, b: &AppData) {
    assert_eq!(a.dolphin_path, b.dolphin_path);
    assert_eq!(a.game_dirs.len(), b.game_dirs.len());
    for (x, y) in a.game_dirs.iter().zip(b.game_dirs.iter()) {
        assert_eq!(x.name, y.name);
        assert_eq!(x.path, y.path);
    }
    assert_eq!(a.presets.len(), b.presets.len());
    for (x, y) in a.presets.iter().zip(b.presets.iter()) {
        assert_eq!(x.id, y.id);
        assert_eq!(x.name, y.name);
        assert_eq!(x.created_at, y.created_at);
        assert_eq!(x.game_path, y.game_path);
        assert_eq!(x.xml_path, y.xml_path);
        assert_eq!(x.section_name, y.section_name);
        assert_eq!(x.options.len(), y.options.len());
        for (o, p) in x.options.iter().zip(y.options.iter()) {
            assert_eq!(o.name, p.name);
            assert_eq!(o.selected, p.selected);
            assert_eq!(o.choices, p.choices);
        }
    }
}

#[test]
fn test_records_round_trip_through_file_format() {
    let mut data = AppData::new();
    data.dolphin_path = "/usr/bin/dolphin-emu".to_owned();
    data.presets.push(sample_preset("a", -5));
    data.presets.push(sample_preset("b", 7));
    create_gamedir(&mut data.game_dirs, "Mario", "/games/mario.iso").unwrap();
    let records = to_records(&data);
    // The records are plain standard values, so the file-backed store can
    // carry them as JSON.
    let text = serde_json::to_string_pretty(&records).unwrap();
    let reloaded: DataRecords = serde_json::from_str(&text).unwrap();
    let back = from_records(&reloaded).unwrap();
    assert_data_equal(&data, &back);
}

#[test]
fn test_from_records_rejects_duplicate_ids() {
    let mut data = AppData::new();
    data.presets.push(sample_preset("a", 1));
    data.presets.push(sample_preset("a", 2));
    let records = to_records(&data);
    assert!(from_records(&records).is_none());
}

#[test]
fn test_i64_display() {
    assert_eq!(i64_display(0), "0");
    assert_eq!(i64_display(7), "7");
    assert_eq!(i64_display(1_700_000_123), "1700000123");
    assert_eq!(i64_display(-42), "-42");
    assert_eq!(i64_display(i64::MIN), "-9223372036854775808");
    assert_eq!(i64_display(i64::MAX), "9223372036854775807");
}

#[test]
fn test_display_strings() {
    let o = PresetOpt {
        name: "Model".to_owned(),
        selected: "A".to_owned(),
        choices: vec!["Disabled".to_owned(), "A".to_owned()],
    };
    assert_eq!(
        o.display_string(),
        "Option:\n      Name: Model\n      Selected: A\n      Choices: [Disabled, A]"
    );
    let p = Preset {
        id: "a".to_owned(),
        name: "P".to_owned(),
        options: vec![o],
        created_at: 12,
        game_path: String::new(),
        xml_path: String::new(),
        section_name: String::new(),
    };
    assert_eq!(
        p.display_string(),
        "Preset:\n  ID: a\n  Name: P\n  Created At: 12\n  Options:\n    Option:\n      Name: Model\n      Selected: A\n      Choices: [Disabled, A]"
    );
}
