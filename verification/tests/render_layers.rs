use osm_world::render_layers::{
    render_layer_index_data, shadow_casting_indices, shadow_index_data, FeatureClass,
};

#[test]
fn render_layers_partition_surface_overlays_for_ordered_draws() {
    let vertices = vec![
        FeatureClass::Terrain,
        FeatureClass::Terrain,
        FeatureClass::Terrain,
        FeatureClass::Landuse,
        FeatureClass::Landuse,
        FeatureClass::Landuse,
        FeatureClass::LanduseOverlay,
        FeatureClass::LanduseOverlay,
        FeatureClass::LanduseOverlay,
        FeatureClass::Water,
        FeatureClass::Water,
        FeatureClass::Water,
        FeatureClass::RoadPath,
        FeatureClass::RoadPath,
        FeatureClass::RoadPath,
        FeatureClass::Road,
        FeatureClass::Road,
        FeatureClass::Road,
        FeatureClass::Railway,
        FeatureClass::Railway,
        FeatureClass::Railway,
        FeatureClass::RoadMarking,
        FeatureClass::RoadMarking,
        FeatureClass::RoadMarking,
        FeatureClass::RoadLayered,
        FeatureClass::RoadLayered,
        FeatureClass::RoadLayered,
        FeatureClass::RoadMarkingLayered,
        FeatureClass::RoadMarkingLayered,
        FeatureClass::RoadMarkingLayered,
        FeatureClass::Building,
        FeatureClass::Building,
        FeatureClass::Building,
    ];
    let indices: Vec<u32> = (0..vertices.len() as u32).collect();

    let layers = render_layer_index_data(&vertices, &indices);

    assert_eq!(layers.terrain, vec![0, 1, 2]);
    assert_eq!(layers.landuse, vec![3, 4, 5]);
    assert_eq!(layers.landuse_overlay, vec![6, 7, 8]);
    assert_eq!(layers.water, vec![9, 10, 11]);
    assert_eq!(layers.road_path, vec![12, 13, 14]);
    assert_eq!(layers.road, vec![15, 16, 17, 24, 25, 26]);
    assert_eq!(layers.railway, vec![18, 19, 20]);
    assert_eq!(layers.road_marking, vec![21, 22, 23, 27, 28, 29]);
    assert_eq!(layers.solids, vec![30, 31, 32]);
}

#[test]
fn shadow_indices_keep_only_building_triangles() {
    let vertices = vec![
        FeatureClass::Terrain,
        FeatureClass::Terrain,
        FeatureClass::Terrain,
        FeatureClass::Building,
        FeatureClass::Building,
        FeatureClass::Building,
        FeatureClass::Road,
        FeatureClass::Road,
        FeatureClass::Road,
    ];
    let indices = vec![0, 1, 2, 3, 4, 5, 6, 7, 8];

    assert_eq!(shadow_casting_indices(&vertices, &indices), vec![3, 4, 5]);
}

#[test]
fn shadow_indices_drop_mixed_receiver_and_caster_triangles() {
    let vertices = vec![
        FeatureClass::Terrain,
        FeatureClass::Building,
        FeatureClass::Building,
    ];
    let indices = vec![0, 1, 2];

    assert!(shadow_casting_indices(&vertices, &indices).is_empty());
}

#[test]
fn shadow_index_data_keeps_zero_draw_count_for_receiver_only_meshes() {
    let vertices = vec![
        FeatureClass::Terrain,
        FeatureClass::Terrain,
        FeatureClass::Terrain,
    ];
    let indices = vec![0, 1, 2];

    let data = shadow_index_data(&vertices, &indices);

    assert_eq!(data.draw_count, 0);
    assert_eq!(data.buffer_indices, vec![0]);
}

#[test]
fn triangles_take_the_kind_of_their_first_existing_vertex() {
    let vertices = vec![FeatureClass::Water, FeatureClass::Building];
    // The first index is out of range, so the second vertex decides.
    let indices = vec![9, 0, 1, 7, 8, 9, 1, 1];
    let layers = render_layer_index_data(&vertices, &indices);
    assert_eq!(layers.water, vec![9, 0, 1]);
    // No vertex of the second triangle exists: it is drawn with the solids.
    assert_eq!(layers.solids, vec![7, 8, 9]);
    // The trailing partial triangle is ignored everywhere.
    assert!(layers.terrain.is_empty());
    let data = shadow_index_data(&vertices, &vec![1, 1, 1, 0, 1, 1]);
    assert_eq!(data.draw_count, 3);
    assert_eq!(data.buffer_indices, vec![1, 1, 1]);
}
