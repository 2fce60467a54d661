use osm_world::tiles::{
    tile_debug_color, tile_debug_legend_entries, tiles_between, update_loaded_tile_debug_states,
    TileCoord, TileDebugEntry, TileDebugState, TileFeatureRefs, TileLod,
};

#[test]
fn feature_refs_default_to_empty_vectors() {
    let refs = TileFeatureRefs::default();
    assert!(refs.buildings.is_empty());
    assert!(refs.roads.is_empty());
    assert!(refs.railways.is_empty());
    assert!(refs.waters.is_empty());
    assert!(refs.waterways.is_empty());
    assert!(refs.landuses.is_empty());
    assert!(refs.point_features.is_empty());
    assert!(refs.street_signs.is_empty());
}

#[test]
fn tile_debug_legend_covers_all_streaming_states() {
    let states: Vec<_> = tile_debug_legend_entries()
        .into_iter()
        .map(|(state, _)| state)
        .collect();

    assert_eq!(
        states,
        vec![
            TileDebugState::Queued,
            TileDebugState::Generating,
            TileDebugState::Uploaded,
            TileDebugState::Visible,
            TileDebugState::Culled,
            TileDebugState::Evicted,
            TileDebugState::Failed,
        ]
    );
}

#[test]
fn tile_debug_colors_come_from_the_legend() {
    assert_eq!(tile_debug_color(TileDebugState::Queued), (120, 170, 255));
    assert_eq!(tile_debug_color(TileDebugState::Failed), (255, 86, 86));
    assert_eq!(tile_debug_color(TileDebugState::Culled), (150, 150, 165));
}

#[test]
fn tile_state_labels_and_loading() {
    assert_eq!(TileDebugState::Queued.label(), "queued");
    assert_eq!(TileDebugState::Generating.label(), "generating");
    assert_eq!(TileDebugState::Evicted.label(), "evicted");
    assert!(TileDebugState::Uploaded.is_loaded());
    assert!(TileDebugState::Visible.is_loaded());
    assert!(TileDebugState::Culled.is_loaded());
    assert!(!TileDebugState::Queued.is_loaded());
    assert!(!TileDebugState::Evicted.is_loaded());
    assert!(!TileDebugState::Failed.is_loaded());
}

#[test]
fn tiles_between_walks_rows_then_columns() {
    let tiles = tiles_between(TileCoord { x: 0, z: -2 }, TileCoord { x: 2, z: 0 });
    assert_eq!(tiles.len(), 9);
    assert!(tiles.contains(&TileCoord { x: 0, z: -2 }));
    assert!(tiles.contains(&TileCoord { x: 2, z: 0 }));
    assert_eq!(tiles[0], TileCoord { x: 0, z: -2 });
    assert_eq!(tiles[1], TileCoord { x: 1, z: -2 });
    assert_eq!(tiles[3], TileCoord { x: 0, z: -1 });
    assert_eq!(tiles[8], TileCoord { x: 2, z: 0 });
    assert!(tiles_between(TileCoord { x: 1, z: 0 }, TileCoord { x: 0, z: 0 }).is_empty());
}

#[test]
fn tile_debug_entries_keep_failure_and_generation_states_when_reclassified() {
    let mut entries = vec![
        TileDebugEntry {
            coord: TileCoord { x: 0, z: 0 },
            state: TileDebugState::Uploaded,
        },
        TileDebugEntry {
            coord: TileCoord { x: 1, z: 0 },
            state: TileDebugState::Generating,
        },
        TileDebugEntry {
            coord: TileCoord { x: 2, z: 0 },
            state: TileDebugState::Failed,
        },
    ];
    // Tile size 100, camera at the origin, stream radius 120: each tile's
    // centre distance decides whether it is within the radius.
    let tile_size = 100.0f32;
    let within: Vec<bool> = entries
        .iter()
        .map(|e| {
            let cx = (e.coord.x as f32 + 0.5) * tile_size;
            let cz = (e.coord.z as f32 + 0.5) * tile_size;
            (cx * cx + cz * cz).sqrt() <= 120.0
        })
        .collect();

    update_loaded_tile_debug_states(&mut entries, &within);

    assert_eq!(entries[0].state, TileDebugState::Visible);
    assert_eq!(entries[1].state, TileDebugState::Generating);
    assert_eq!(entries[2].state, TileDebugState::Failed);
}

#[test]
fn loaded_tiles_outside_the_radius_are_culled() {
    let mut entries = vec![
        TileDebugEntry {
            coord: TileCoord { x: 3, z: 0 },
            state: TileDebugState::Visible,
        },
        TileDebugEntry {
            coord: TileCoord { x: 0, z: 0 },
            state: TileDebugState::Culled,
        },
    ];
    update_loaded_tile_debug_states(&mut entries, &vec![false, true]);
    assert_eq!(entries[0].state, TileDebugState::Culled);
    assert_eq!(entries[1].state, TileDebugState::Visible);
    assert_eq!(entries[0].coord, TileCoord { x: 3, z: 0 });
    assert_ne!(TileLod::Near, TileLod::Far);
}
