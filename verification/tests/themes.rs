use osm_world::themes::canonical_theme_names;

fn strings(v: &[&str]) -> Vec<String> {
    v.iter().map(|s| s.to_string()).collect()
}

#[test]
fn theme_names_are_sorted_and_unique() {
    assert_eq!(
        canonical_theme_names(&strings(&["places", "buildings", "places", "addresses"])),
        strings(&["addresses", "buildings", "places"])
    );
    assert_eq!(canonical_theme_names(&Vec::new()), Vec::<String>::new());
}

#[test]
fn theme_name_order_does_not_change_the_canonical_list() {
    let a = canonical_theme_names(&strings(&["transportation", "base", "divisions"]));
    let b = canonical_theme_names(&strings(&["divisions", "transportation", "base", "base"]));
    assert_eq!(a, b);
    assert_eq!(a, strings(&["base", "divisions", "transportation"]));
}
