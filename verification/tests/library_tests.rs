use spoiler_report::default_ignored_items;
use spoiler_report::document::ItemPlacement;
use spoiler_report::document::LocationEntry;
use spoiler_report::document::SpoilerDocument;
use spoiler_report::document::WorldLocations;
use spoiler_report::report::generate_report;
use spoiler_report::strings::str_eq;
use spoiler_report::strings::str_le;
use spoiler_report::strings::sort_strings;
use spoiler_report::strings::u32_to_decimal;

fn placement(item: &str, player: u32) -> ItemPlacement {
    ItemPlacement { item_name: item.to_string(), owning_player: player, price: None }
}

fn world(name: &str, entries: Vec<(&str, ItemPlacement)>) -> WorldLocations {
    WorldLocations {
        world_name: name.to_string(),
        locations: entries
            .into_iter()
            .map(|(loc, p)| LocationEntry { location_name: loc.to_string(), placement: p })
            .collect(),
    }
}

#[test]
fn default_ignore_list_contents() {
    let items = default_ignored_items();
    assert_eq!(items.len(), 36);
    assert!(items.iter().any(|s| s == "Ice Trap"));
    assert!(items.iter().any(|s| s == "Rupees (5)"));
    assert!(items.iter().any(|s| s == "Piece of Heart (Treasure Chest Game)"));
    assert!(items.iter().any(|s| s == "Buy Bombs (5) for 35 Rupees"));
    assert!(!items.iter().any(|s| s == "Slingshot"));
}

#[test]
fn generate_report_with_custom_ignore_list() {
    let doc = SpoilerDocument {
        worlds: vec![
            world(
                "World 1",
                vec![("Chest A", placement("Lens of Truth", 1)), ("Chest B", placement("Junk", 1))],
            ),
        ],
    };
    let ignored = vec!["Junk".to_string()];
    let report = generate_report(&doc, &ignored);
    assert_eq!(report, "Lens of Truth\n    Player 1 -> World 1: Chest A");
}

#[test]
fn generate_report_empty_document() {
    let doc = SpoilerDocument { worlds: vec![] };
    let report = generate_report(&doc, &default_ignored_items());
    assert_eq!(report, "");
}

#[test]
fn generate_report_groups_across_worlds() {
    let doc = SpoilerDocument {
        worlds: vec![
            world("B World", vec![("Chest", placement("Hookshot", 2))]),
            world("A World", vec![("Chest", placement("Hookshot", 1))]),
        ],
    };
    let report = generate_report(&doc, &Vec::new());
    let expected =
        "Hookshot\n    Player 1 -> A World: Chest\n    Player 2 -> B World: Chest";
    assert_eq!(report, expected);
}

#[test]
fn string_comparison_is_lexicographic_on_rendered_text() {
    assert!(str_le("Player 10", "Player 2"));
    assert!(!str_le("Player 2", "Player 10"));
    assert!(str_le("", "a"));
    assert!(str_le("abc", "abc"));
    assert!(str_le("ab", "abc"));
    assert!(!str_le("abc", "ab"));
    assert!(str_eq("abc", "abc"));
    assert!(!str_eq("abc", "abd"));
}

#[test]
fn sort_strings_sorts_ascending() {
    let v = vec!["pear".to_string(), "Apple".to_string(), "apple".to_string(), "fig".to_string()];
    let sorted = sort_strings(v);
    assert_eq!(sorted, vec!["Apple", "apple", "fig", "pear"]);
}

#[test]
fn decimal_rendering() {
    assert_eq!(u32_to_decimal(0), "0");
    assert_eq!(u32_to_decimal(7), "7");
    assert_eq!(u32_to_decimal(10), "10");
    assert_eq!(u32_to_decimal(105), "105");
    assert_eq!(u32_to_decimal(4294967295), "4294967295");
}
