use riiv_presets::presets::{parse_schema_text, PresetOpt, SchemaError};

#[test]
fn test_parse_counts_and_disabled() {
    let xml = r#"<options>
        <section name="Graphics"/>
        <option name="Model">
            <choice name="A"/>
            <choice name="B"/>
        </option>
        <option name="Music">
            <choice name="Jazz"/>
        </option>
        <option name="Bare"/>
    </options>"#;
    let (opts, section) = parse_schema_text(xml).unwrap();
    assert_eq!(section, "Graphics");
    assert_eq!(opts.len(), 3);
    let expected: Vec<(&str, usize)> = vec![("Model", 3), ("Music", 2), ("Bare", 1)];
    for (i, (name, n_choices)) in expected.into_iter().enumerate() {
        assert_eq!(opts[i].name, name);
        assert_eq!(opts[i].choices.len(), n_choices);
        assert_eq!(opts[i].choices[0], "Disabled");
        assert_eq!(opts[i].selected, "Disabled");
    }
    assert_eq!(opts[0].choices, vec!["Disabled", "A", "B"]);
}

#[test]
fn test_parse_empty_schema_rejected() {
    let xml = r#"<options><section name="S"/></options>"#;
    let r = parse_schema_text(xml);
    assert_eq!(r.unwrap_err(), SchemaError::EmptySchema);
}

#[test]
fn test_parse_example_schema() {
    let xml = r#"<options><section name="S"/><option name="Model"><choice name="A"/><choice name="B"/></option></options>"#;
    let (opts, section) = parse_schema_text(xml).unwrap();
    assert_eq!(section, "S");
    assert_eq!(opts.len(), 1);
    assert_eq!(opts[0].name, "Model");
    assert_eq!(opts[0].choices, vec!["Disabled", "A", "B"]);
    assert_eq!(opts[0].selected, "Disabled");
}

#[test]
fn test_parse_stops_at_options_end() {
    let xml = r#"<root><options><option name="A"/></options><option name="B"/></root>"#;
    let (opts, _) = parse_schema_text(xml).unwrap();
    assert_eq!(opts.len(), 1);
    assert_eq!(opts[0].name, "A");
}

#[test]
fn test_parse_last_section_wins() {
    let xml = r#"<options><section name="First"/><option name="A"/><section name="Second"/></options>"#;
    let (_, section) = parse_schema_text(xml).unwrap();
    assert_eq!(section, "Second");
}

#[test]
fn test_parse_keeps_partial_state_on_malformed_xml() {
    // The document breaks off before the option ends: what was read up to
    // the fault is kept, so the option is present but never resolved.
    let xml = r#"<options><option name="A"><choice name="X"/>"#;
    let (opts, _) = parse_schema_text(xml).unwrap();
    assert_eq!(opts.len(), 1);
    assert_eq!(opts[0].name, "A");
    assert_eq!(opts[0].choices, vec!["Disabled", "X"]);
    assert_eq!(opts[0].selected, "");
}

#[test]
fn test_preset_opt_new_is_blank() {
    let o = PresetOpt::new();
    assert_eq!(o.name, "");
    assert_eq!(o.selected, "");
    assert!(o.choices.is_empty());
}
