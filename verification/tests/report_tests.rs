use spoiler_report::parse::ParseError;
use spoiler_report::parse_spoiler_log;

fn doc_with_locations(locations_json: &str) -> String {
    format!(
        r#"{{
        ":version": "6.2.0",
        "file_hash": ["Deku Stick", "Bow"],
        ":seed": "ABCDEF",
        ":settings_string": "AJTWXCHYKAA",
        ":enable_distribution_file": false,
        "settings": {{"world_count": 2}},
        "randomized_settings": {{"World 1": {{"starting_age": "child"}}}},
        "item_pool": {{"Bow": {{}}}},
        "dungeons": {{"Deku Tree": {{}}}},
        "empty_dungeons": {{}},
        "trials": {{"Forest": {{}}}},
        "locations": {locations_json},
        ":skipped_locations": {{}},
        ":woth_locations": {{"World 1": {{}}}},
        ":goal_locations": {{}},
        ":barren_regions": {{"World 1": ["Kakariko Village"]}},
        "gossip_stones": {{}},
        ":playthrough": {{}}
        }}"#
    )
}

#[test]
fn empty_locations_report_is_empty() {
    let text = doc_with_locations("{}");
    let report = parse_spoiler_log(text).unwrap();
    assert_eq!(report, "");
}

#[test]
fn all_ignored_report_is_empty() {
    let text = doc_with_locations(
        r#"{"World 1": {"Deku Tree Chest": {"item": "Rupees (5)", "player": 1},
                       "Market Chest": {"item": "Ice Trap", "player": 1}}}"#,
    );
    let report = parse_spoiler_log(text).unwrap();
    assert_eq!(report, "");
}

#[test]
fn end_to_end_two_worlds() {
    let text = doc_with_locations(
        r#"{"World 1": {"Kokiri Sword Chest": {"item": "Slingshot", "player": 1}},
            "World 2": {"Market Shop": {"item": "Slingshot", "player": 2},
                        "Deku Tree Chest": {"item": "Rupees (5)", "player": 2}}}"#,
    );
    let report = parse_spoiler_log(text).unwrap();
    let expected = "Slingshot\n    Player 1 -> World 1: Kokiri Sword Chest\n    Player 2 -> World 2: Market Shop";
    assert_eq!(report, expected);
}

#[test]
fn invalid_json_yields_syntax_error() {
    let r = parse_spoiler_log("this is { not json".to_string());
    assert_eq!(r, Err(ParseError::SyntaxError));
}

#[test]
fn missing_locations_key_yields_schema_error() {
    let text = doc_with_locations("{}").replace(r#""locations""#, r#""elsewhere""#);
    let r = parse_spoiler_log(text);
    assert_eq!(r, Err(ParseError::SchemaError));
}

#[test]
fn missing_version_yields_schema_error() {
    let text = doc_with_locations("{}").replace(r#"":version""#, r#"":nonversion""#);
    let r = parse_spoiler_log(text);
    assert_eq!(r, Err(ParseError::SchemaError));
}

#[test]
fn locations_of_wrong_shape_yield_schema_error() {
    let r = parse_spoiler_log(doc_with_locations(r#"["World 1"]"#));
    assert_eq!(r, Err(ParseError::SchemaError));

    let r = parse_spoiler_log(doc_with_locations(r#"{"World 1": ["x"]}"#));
    assert_eq!(r, Err(ParseError::SchemaError));

    let r = parse_spoiler_log(doc_with_locations(
        r#"{"World 1": {"Chest": {"player": 1}}}"#,
    ));
    assert_eq!(r, Err(ParseError::SchemaError));

    let r = parse_spoiler_log(doc_with_locations(
        r#"{"World 1": {"Chest": {"item": "Bow"}}}"#,
    ));
    assert_eq!(r, Err(ParseError::SchemaError));

    let r = parse_spoiler_log(doc_with_locations(
        r#"{"World 1": {"Chest": {"item": "Bow", "player": "one"}}}"#,
    ));
    assert_eq!(r, Err(ParseError::SchemaError));
}

#[test]
fn player_zero_yields_schema_error() {
    let r = parse_spoiler_log(doc_with_locations(
        r#"{"World 1": {"Chest": {"item": "Bow", "player": 0}}}"#,
    ));
    assert_eq!(r, Err(ParseError::SchemaError));
}

#[test]
fn player_ten_sorts_before_player_two() {
    let text = doc_with_locations(
        r#"{"World 1": {"Castle Chest": {"item": "Bow", "player": 2},
                       "Forest Chest": {"item": "Bow", "player": 10}}}"#,
    );
    let report = parse_spoiler_log(text).unwrap();
    let expected =
        "Bow\n    Player 10 -> World 1: Forest Chest\n    Player 2 -> World 1: Castle Chest";
    assert_eq!(report, expected);
}

#[test]
fn item_names_strictly_ascending() {
    let text = doc_with_locations(
        r#"{"World 1": {"A": {"item": "Zora Tunic", "player": 1},
                       "B": {"item": "Bow", "player": 1},
                       "C": {"item": "Mirror Shield", "player": 1}}}"#,
    );
    let report = parse_spoiler_log(text).unwrap();
    let names: Vec<&str> = report
        .lines()
        .filter(|l| !l.starts_with("    "))
        .collect();
    assert_eq!(names, vec!["Bow", "Mirror Shield", "Zora Tunic"]);
}

#[test]
fn ten_placements_single_heading() {
    let mut worlds = String::new();
    for i in 0..12 {
        if i > 0 {
            worlds.push(',');
        }
        worlds.push_str(&format!(
            r#""Chest {:02}": {{"item": "Gold Skulltula Token", "player": 1}}"#,
            i
        ));
    }
    let text = doc_with_locations(&format!(r#"{{"World 1": {{{}}}}}"#, worlds));
    let report = parse_spoiler_log(text).unwrap();
    let headings: Vec<&str> = report
        .lines()
        .filter(|l| *l == "Gold Skulltula Token")
        .collect();
    assert_eq!(headings.len(), 1);
    let lines: Vec<&str> = report.lines().collect();
    assert_eq!(lines.len(), 13);
    assert_eq!(lines[0], "Gold Skulltula Token");
    for w in lines[1..].windows(2) {
        assert!(w[0] < w[1]);
    }
}

#[test]
fn price_is_optional_and_may_be_null() {
    let text = doc_with_locations(
        r#"{"World 1": {"Shop Item": {"item": "Bow", "player": 1, "price": 200},
                       "Other Item": {"item": "Bombos", "player": 1, "price": null}}}"#,
    );
    let report = parse_spoiler_log(text).unwrap();
    let expected = "Bombos\n    Player 1 -> World 1: Other Item\nBow\n    Player 1 -> World 1: Shop Item";
    assert_eq!(report, expected);

    let r = parse_spoiler_log(doc_with_locations(
        r#"{"World 1": {"Shop Item": {"item": "Bow", "player": 1, "price": "free"}}}"#,
    ));
    assert_eq!(r, Err(ParseError::SchemaError));
}

#[test]
fn non_ascii_names_kept_verbatim() {
    let text = doc_with_locations(
        r#"{"Måsøy": {"Fjellkiste": {"item": "Økseblad", "player": 3}}}"#,
    );
    let report = parse_spoiler_log(text).unwrap();
    assert_eq!(report, "\u{d8}kseblad\n    Player 3 -> M\u{e5}s\u{f8}y: Fjellkiste");
}

#[test]
fn duplicate_world_keys_keep_last() {
    let text = doc_with_locations(
        r#"{"World 1": {"Chest": {"item": "Bow", "player": 1}},
            "World 1": {"Chest": {"item": "Hammer", "player": 1}}}"#,
    );
    let report = parse_spoiler_log(text).unwrap();
    assert_eq!(report, "Hammer\n    Player 1 -> World 1: Chest");
}

#[test]
fn wrong_shape_of_schema_only_fields_yields_schema_error() {
    let base = doc_with_locations("{}");

    let text = base.replace(r#"":enable_distribution_file": false"#, r#"":enable_distribution_file": "no""#);
    assert_eq!(parse_spoiler_log(text), Err(ParseError::SchemaError));

    let text = base.replace(r#""settings": {"world_count": 2}"#, r#""settings": 7"#);
    assert_eq!(parse_spoiler_log(text), Err(ParseError::SchemaError));

    let text = base.replace(r#""file_hash": ["Deku Stick", "Bow"]"#, r#""file_hash": ["Deku Stick", 4]"#);
    assert_eq!(parse_spoiler_log(text), Err(ParseError::SchemaError));

    let text = base.replace(r#""randomized_settings": {"World 1": {"starting_age": "child"}}"#, r#""randomized_settings": {"World 1": 3}"#);
    assert_eq!(parse_spoiler_log(text), Err(ParseError::SchemaError));

    let text = base.replace(r#"":barren_regions": {"World 1": ["Kakariko Village"]}"#, r#"":barren_regions": {"World 1": "Kakariko Village"}"#);
    assert_eq!(parse_spoiler_log(text), Err(ParseError::SchemaError));

    let text = base.replace(r#"":seed": "ABCDEF""#, r#"":seed": 123456"#);
    assert_eq!(parse_spoiler_log(text), Err(ParseError::SchemaError));
}

#[test]
fn out_of_range_numbers_yield_schema_error() {
    let r = parse_spoiler_log(doc_with_locations(
        r#"{"World 1": {"Chest": {"item": "Bow", "player": 4294967296}}}"#,
    ));
    assert_eq!(r, Err(ParseError::SchemaError));

    let r = parse_spoiler_log(doc_with_locations(
        r#"{"World 1": {"Chest": {"item": "Bow", "player": 1, "price": 4294967296}}}"#,
    ));
    assert_eq!(r, Err(ParseError::SchemaError));

    let r = parse_spoiler_log(doc_with_locations(
        r#"{"World 1": {"Chest": {"item": "Bow", "player": -1}}}"#,
    ));
    assert_eq!(r, Err(ParseError::SchemaError));
}

#[test]
fn extra_fields_in_placement_are_ignored() {
    let text = doc_with_locations(
        r#"{"World 1": {"Chest": {"item": "Bow", "player": 1, "model": "GI_BOW"}}}"#,
    );
    let report = parse_spoiler_log(text).unwrap();
    assert_eq!(report, "Bow\n    Player 1 -> World 1: Chest");
}
