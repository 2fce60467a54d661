use osm_world::visual_detail::{FeatureKind, LandmarkDetail, VisualPreset};

#[test]
fn presets_are_found_by_name() {
    for preset in [
        VisualPreset::Performance,
        VisualPreset::Balanced,
        VisualPreset::Showcase,
    ] {
        assert_eq!(VisualPreset::from_name(preset.name()), Some(preset));
    }
    assert_eq!(VisualPreset::from_name("showcase"), Some(VisualPreset::Showcase));
    assert_eq!(VisualPreset::from_name("Showcase"), None);
    assert_eq!(VisualPreset::from_name("ultra"), None);
}

#[test]
fn landmark_detail_levels_are_found_by_name() {
    for level in [LandmarkDetail::Off, LandmarkDetail::Simple, LandmarkDetail::Showcase] {
        assert_eq!(LandmarkDetail::from_name(level.name()), Some(level));
    }
    assert_eq!(LandmarkDetail::from_name("off"), Some(LandmarkDetail::Off));
    assert_eq!(LandmarkDetail::from_name(""), None);
    assert_ne!(FeatureKind::Road, FeatureKind::StreetSign);
}
