use riiv_presets::jsonbuilder::{create_json, locate_root, BuildError};
use riiv_presets::presets::{Preset, PresetOpt};
use riiv_presets::run_game;
use riiv_presets::state::AppData;

fn opt(name: &str, selected: &str, choices: &[&str]) -> PresetOpt {
    PresetOpt {
        name: name.to_owned(),
        selected: selected.to_owned(),
        choices: choices.iter().map(|c| c.to_string()).collect(),
    }
}

fn preset(id: &str, game_path: &str, xml_path: &str, options: Vec<PresetOpt>) -> Preset {
    Preset {
        id: id.to_owned(),
        name: "Test Preset".to_owned(),
        options,
        created_at: 1_700_000_000,
        game_path: game_path.to_owned(),
        xml_path: xml_path.to_owned(),
        section_name: "Test Section".to_owned(),
    }
}

fn data_with(p: Preset) -> AppData {
    let mut data = AppData::new();
    data.presets.push(p);
    data
}

#[test]
fn test_create_json() {
    let data = data_with(preset(
        "test_id",
        "/path/to/game.iso",
        "/path/to/riivolution/test.xml",
        vec![opt("Option 1", "Choice 1", &["Choice 1", "Choice 2"])],
    ));
    let result = create_json(&data, "test_id");
    assert!(result.is_ok());
}

#[test]
fn test_descriptor_fields_and_choice_indices() {
    let data = data_with(preset(
        "p",
        "/games/mario.iso",
        "/mods/pack/riivolution/pack.xml",
        vec![
            opt("Model", "B", &["Disabled", "A", "B"]),
            opt("Music", "Disabled", &["Disabled", "Jazz"]),
        ],
    ));
    let d = create_json(&data, "p").unwrap();
    assert_eq!(d.base_file, "/games/mario.iso");
    assert_eq!(d.display_name, "Test Preset");
    assert_eq!(d.root, "/mods/pack");
    assert_eq!(d.xml, "/mods/pack/riivolution/pack.xml");
    assert_eq!(d.options.len(), 2);
    assert_eq!(d.options[0].choice, 2);
    assert_eq!(d.options[0].option_name, "Model");
    assert_eq!(d.options[0].section_name, "Test Section");
    assert_eq!(d.options[1].choice, 0);
}

#[test]
fn test_missing_preset() {
    let data = AppData::new();
    assert!(matches!(create_json(&data, "nope"), Err(BuildError::NotFound)));
}

#[test]
fn test_missing_game_path_wins_over_bad_options() {
    let data = data_with(preset(
        "p",
        "",
        "/mods/riivolution/pack.xml",
        vec![opt("Model", "", &["Disabled"])],
    ));
    assert!(matches!(create_json(&data, "p"), Err(BuildError::MissingGamePath)));
}

#[test]
fn test_first_missing_selection_wins() {
    let data = data_with(preset(
        "p",
        "/g.iso",
        "/mods/riivolution/pack.xml",
        vec![
            opt("Ok One", "Disabled", &["Disabled"]),
            opt("First Bad", "", &["Disabled"]),
            opt("Second Bad", "", &["Disabled"]),
            opt("Orphan", "Nope", &["Disabled"]),
        ],
    ));
    match create_json(&data, "p") {
        Err(BuildError::MissingSelection { option_name }) => {
            assert_eq!(option_name, "First Bad");
        }
        other => panic!("expected a missing selection, got {:?}", other),
    }
}

#[test]
fn test_invalid_choice_reported_with_name() {
    let data = data_with(preset(
        "p",
        "/g.iso",
        "/mods/riivolution/pack.xml",
        vec![opt("Model", "Ghost", &["Disabled", "A"])],
    ));
    match create_json(&data, "p") {
        Err(BuildError::InvalidChoice { option_name }) => {
            assert_eq!(option_name, "Model");
        }
        other => panic!("expected an invalid choice, got {:?}", other),
    }
}

#[test]
fn test_schema_outside_riivolution_folder() {
    let data = data_with(preset(
        "p",
        "/g.iso",
        "/mods/elsewhere/pack.xml",
        vec![opt("Model", "Disabled", &["Disabled"])],
    ));
    assert!(matches!(create_json(&data, "p"), Err(BuildError::InvalidSchemaLocation)));
}

#[test]
fn test_schema_path_without_parent() {
    let data = data_with(preset("p", "/g.iso", "", vec![opt("M", "Disabled", &["Disabled"])]));
    assert!(matches!(create_json(&data, "p"), Err(BuildError::NoParentDirectory)));
}

#[test]
fn test_locate_root_cases() {
    let r = locate_root(None, None, None);
    assert!(matches!(r, Err(BuildError::NoParentDirectory)));
    let r = locate_root(Some("/a/b".to_owned()), Some("b".to_owned()), Some("/a".to_owned()));
    assert!(matches!(r, Err(BuildError::InvalidSchemaLocation)));
    let r = locate_root(Some("/a/riivolution".to_owned()), Some("riivolution".to_owned()), None);
    assert!(matches!(r, Err(BuildError::NoRootDirectory)));
    let r = locate_root(
        Some("/a/riivolution".to_owned()),
        Some("riivolution".to_owned()),
        Some("/a".to_owned()),
    );
    assert_eq!(r.unwrap(), "/a");
}

#[test]
fn test_run_game_names_descriptor_file() {
    let data = data_with(preset(
        "p",
        "/g.iso",
        "/mods/riivolution/pack.xml",
        vec![opt("Model", "A", &["Disabled", "A"])],
    ));
    let (d, file_name) = run_game(&data, "p").unwrap();
    assert_eq!(file_name, "Test Preset.json");
    assert_eq!(d.options[0].choice, 1);
}

#[test]
fn test_run_game_missing_preset() {
    let data = AppData::new();
    assert!(matches!(run_game(&data, "p"), Err(BuildError::NotFound)));
}
