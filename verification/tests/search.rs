use osm_world::search::{search_entries, tag_value, SearchCategory, SearchEntry, SearchState};

#[test]
fn search_state_filters_case_insensitively_and_limits_results() {
    let entries = vec![
        SearchEntry::new(
            "Main Street",
            SearchCategory::Road,
            glam::vec3(1.0, 2.0, 3.0),
        ),
        SearchEntry::new(
            "Main Street Cafe",
            SearchCategory::Poi,
            glam::vec3(4.0, 5.0, 6.0),
        ),
        SearchEntry::new("Broadway", SearchCategory::Road, glam::vec3(7.0, 8.0, 9.0)),
    ];

    let results = search_entries(&entries, "main", 1);

    assert_eq!(results.len(), 1);
    assert_eq!(results[0].label, "Main Street");
}

#[test]
fn search_keeps_entry_order_kind_and_position() {
    let entries = vec![
        SearchEntry::new("Oak Park", SearchCategory::Landmark, glam::vec3(1.0, 0.0, 1.0)),
        SearchEntry::new("12 Elm St", SearchCategory::Address, glam::vec3(2.0, 0.0, 2.0)),
        SearchEntry::new("PARK STATION", SearchCategory::Transit, glam::vec3(3.0, 1.0, 3.0)),
    ];
    let results = search_entries(&entries, "  PaRk ", 8);
    assert_eq!(results.len(), 2);
    assert_eq!(results[0].label, "Oak Park");
    assert_eq!(results[0].category, SearchCategory::Landmark);
    assert_eq!(results[1].label, "PARK STATION");
    assert_eq!(results[1].position, glam::vec3(3.0, 1.0, 3.0));
}

#[test]
fn blank_query_or_zero_limit_finds_nothing() {
    let entries = vec![SearchEntry::new("Anything", SearchCategory::Poi, glam::Vec3::ZERO)];
    assert!(search_entries(&entries, "   ", 8).is_empty());
    assert!(search_entries(&entries, "any", 0).is_empty());
    assert!(search_entries(&entries, "zzz", 8).is_empty());
    assert!(SearchState::default().query.is_empty());
}

#[test]
fn tag_values_are_trimmed_and_blank_ones_dropped() {
    assert_eq!(tag_value(Some("  Main Street ")), Some("Main Street".to_string()));
    assert_eq!(tag_value(Some("   ")), None);
    assert_eq!(tag_value(None), None);
}
