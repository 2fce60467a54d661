use osm_world::digest::{cache_key_for_payload, sha256_hex};
use osm_world::errors::{
    classify_srtm_error, classify_srtm_message, ApiError, PrepareAreaError, SrtmFailure,
};
use osm_world::listing::{prepared_listing_order, PreparedAreaSortKey};
use osm_world::prepared::{
    apply_prepared_area_update, is_degraded_overture_prepared_cache, metadata_failure_message,
    prepared_cache_hit, prepared_cache_status, prepared_metadata_path, prepared_osm_path,
    read_prepared_cache_metadata, should_check_prepared_cache, validate_cache_key, validate_filter,
    plan_prepared_cache, DeletePreparedAreaResponse, FeatureFilter, MetadataReadFailure, PreparedAreaDetails, PreparedAreaUpdate,
    SourceSummary,
};

#[test]
fn sha256_hex_matches_known_digests() {
    assert_eq!(
        sha256_hex(b""),
        "e3b0c44298fc1c149afbf4c8996fb92427ae41e4649b934ca495991b7852b855"
    );
    assert_eq!(
        sha256_hex(b"abc"),
        "ba7816bf8f01cfea414140de5dae2223b00361a396177a9cb410ff61f20015ad"
    );
}

#[test]
fn cache_keys_the_server_derives_pass_the_key_check() {
    let key = cache_key_for_payload("{\"schema\":3,\"bbox\":[38.0,-121.0,38.001,-120.999]}");
    assert_eq!(key.len(), 64);
    assert!(validate_cache_key(&key).is_ok());
}

#[test]
fn cache_key_check_refuses_other_text() {
    let good = "a".repeat(64);
    assert!(validate_cache_key(&good).is_ok());
    assert!(matches!(
        validate_cache_key(&"a".repeat(63)),
        Err(PrepareAreaError::BadRequest { .. })
    ));
    assert!(validate_cache_key(&"A".repeat(64)).is_err());
    assert!(validate_cache_key(&"g".repeat(64)).is_err());
    assert!(validate_cache_key("../../etc/passwd").is_err());
}

#[test]
fn degraded_overture_entries_are_not_reused() {
    assert!(is_degraded_overture_prepared_cache(true, "overture_fallback_to_osm"));
    assert!(!is_degraded_overture_prepared_cache(false, "overture_fallback_to_osm"));
    assert!(!is_degraded_overture_prepared_cache(true, "both"));
    let degraded = SourceSummary {
        source_status: "overture_fallback_to_osm".to_string(),
        warnings: vec!["overture unavailable".to_string()],
    };
    assert!(prepared_cache_hit(true, degraded.clone()).is_none());
    let reused = prepared_cache_hit(false, degraded).unwrap();
    assert_eq!(reused.source_status, "overture_fallback_to_osm");
    assert_eq!(reused.warnings, vec!["overture unavailable".to_string()]);
}

#[test]
fn cache_status_names_what_happened() {
    assert_eq!(prepared_cache_status(true, false), "prepared_cache_hit");
    assert_eq!(prepared_cache_status(false, true), "force_refreshed");
    assert_eq!(prepared_cache_status(false, false), "prepared");
    assert!(should_check_prepared_cache(false, true));
    assert!(!should_check_prepared_cache(true, true));
    assert!(!should_check_prepared_cache(false, false));
}

#[test]
fn unreadable_metadata_reports_unknown_status() {
    let (status, warnings) = read_prepared_cache_metadata(Err("gone".to_string()));
    assert_eq!(status, "cached_unknown");
    assert_eq!(warnings, vec!["gone".to_string()]);
    let (status, warnings) = read_prepared_cache_metadata(Ok(SourceSummary {
        source_status: "osm_only".to_string(),
        warnings: Vec::new(),
    }));
    assert_eq!(status, "osm_only");
    assert!(warnings.is_empty());
}

#[test]
fn metadata_failure_messages_name_the_path() {
    assert_eq!(
        metadata_failure_message("/c/k.meta.json", &MetadataReadFailure::Missing),
        "prepared cache metadata missing at /c/k.meta.json; source status unknown"
    );
    assert_eq!(
        metadata_failure_message(
            "/c/k.meta.json",
            &MetadataReadFailure::Unreadable {
                reason: "expected value at line 1 column 1".to_string()
            }
        ),
        "prepared cache metadata unreadable at /c/k.meta.json; source status unknown: expected value at line 1 column 1"
    );
}

#[test]
fn prepared_paths_follow_the_cache_layout() {
    assert_eq!(
        prepared_metadata_path("/cache/prepared/abc.osm"),
        "/cache/prepared/abc.meta.json"
    );
    assert_eq!(
        prepared_osm_path("/cache/prepared", "abc"),
        "/cache/prepared/abc.osm"
    );
}

#[test]
fn update_prepared_area_details_persists_name_and_favorite() {
    let details = PreparedAreaDetails {
        display_name: None,
        favorite: false,
    };
    let renamed = apply_prepared_area_update(
        details,
        PreparedAreaUpdate {
            display_name: Some("  Davis downtown  ".to_string()),
            favorite: Some(true),
        },
    );
    assert_eq!(renamed.display_name.as_deref(), Some("Davis downtown"));
    assert!(renamed.favorite);

    let cleared = apply_prepared_area_update(
        renamed.clone(),
        PreparedAreaUpdate {
            display_name: Some("   ".to_string()),
            favorite: None,
        },
    );
    assert_eq!(cleared.display_name, None);
    assert!(cleared.favorite);

    let untouched = apply_prepared_area_update(
        renamed,
        PreparedAreaUpdate {
            display_name: None,
            favorite: Some(false),
        },
    );
    assert_eq!(untouched.display_name.as_deref(), Some("Davis downtown"));
    assert!(!untouched.favorite);
}

#[test]
fn delete_response_names_the_key() {
    let response = DeletePreparedAreaResponse::deleted("abc");
    assert_eq!(response.status, "deleted");
    assert_eq!(response.cache_key, "abc");
}

#[test]
fn api_errors_map_kinds_to_statuses() {
    let bad = ApiError::from_prepare_error(PrepareAreaError::bad_request(anyhow::Error::msg(
        "bbox too large",
    )));
    assert_eq!((bad.status, bad.client_message), (400, "invalid request"));
    let upstream = ApiError::from_prepare_error(PrepareAreaError::upstream(
        "failed to fetch map data",
        anyhow::Error::msg("timeout"),
    ));
    assert_eq!(
        (upstream.status, upstream.client_message),
        (502, "failed to fetch map data")
    );
    let internal = ApiError::from_prepare_error(PrepareAreaError::internal(
        "failed to prepare area",
        anyhow::Error::msg("disk full"),
    ));
    assert_eq!(
        (internal.status, internal.client_message),
        (500, "failed to prepare area")
    );
    assert_eq!(ApiError::invalid_request().status, 400);
    assert_eq!(ApiError::internal().status, 500);
}

#[test]
fn srtm_failures_are_sorted_by_message() {
    assert_eq!(
        classify_srtm_message("downloading SRTM tiles: Failed to write tmp file /x"),
        SrtmFailure::Filesystem
    );
    assert_eq!(
        classify_srtm_message("Failed to rename /a to /b"),
        SrtmFailure::Filesystem
    );
    assert_eq!(
        classify_srtm_message("downloading SRTM tiles: connection refused"),
        SrtmFailure::Network
    );
    let err = classify_srtm_error(
        anyhow::Error::msg("Failed to rename /a to /b").context("downloading SRTM tiles"),
    );
    assert!(matches!(
        err,
        PrepareAreaError::Internal {
            client_message: "failed to prepare area",
            ..
        }
    ));
    let err = classify_srtm_error(anyhow::Error::msg("404").context("downloading SRTM tiles"));
    assert!(matches!(
        err,
        PrepareAreaError::Upstream {
            client_message: "failed to fetch elevation data",
            ..
        }
    ));
}

fn key(favorite: bool, name: Option<&str>, cache_key: &str) -> PreparedAreaSortKey {
    PreparedAreaSortKey {
        favorite,
        display_name: name.map(|n| n.to_string()),
        cache_key: cache_key.to_string(),
    }
}

#[test]
fn prepared_areas_list_favorites_then_names_then_keys() {
    let keys = vec![
        key(false, Some("Zurich"), "k1"),
        key(true, Some("Oakland"), "k2"),
        key(false, None, "k9"),
        key(false, Some("Berlin"), "k3"),
        key(true, None, "k4"),
        key(false, None, "k0"),
        key(false, Some("Berlin"), "k2"),
    ];
    let order = prepared_listing_order(&keys);
    assert_eq!(order, vec![4, 1, 5, 2, 6, 3, 0]);
}

#[test]
fn prepared_area_listing_keeps_ties_in_found_order() {
    let keys = vec![
        key(false, Some("same"), "k"),
        key(false, Some("same"), "k"),
        key(false, Some("other"), "k"),
    ];
    assert_eq!(prepared_listing_order(&keys), vec![2, 0, 1]);
    assert_eq!(prepared_listing_order(&Vec::new()), Vec::<usize>::new());
}

#[test]
fn cache_key_refusal_names_the_key() {
    match validate_cache_key("short") {
        Err(PrepareAreaError::BadRequest { source }) => {
            assert_eq!(format!("{source:#}"), "invalid prepared area cache key");
        }
        other => panic!("expected a bad request, got {other:?}"),
    }
}

#[test]
fn feature_filter_needs_one_feature_kind() {
    let none = FeatureFilter {
        roads: false,
        buildings: false,
        water: false,
        landuse: false,
        railways: false,
    };
    match validate_filter(&none) {
        Err(PrepareAreaError::BadRequest { source }) => {
            assert_eq!(format!("{source:#}"), "all feature types are disabled");
        }
        other => panic!("expected a bad request, got {other:?}"),
    }
    assert!(validate_filter(&FeatureFilter { railways: true, ..none }).is_ok());
    assert!(validate_filter(&FeatureFilter { roads: true, water: true, ..none }).is_ok());
}

#[test]
fn prepare_plan_reuses_a_recorded_entry() {
    let summary = SourceSummary {
        source_status: "osm".to_string(),
        warnings: vec!["w".to_string()],
    };
    let reuse = plan_prepared_cache(false, false, true, Some(Ok(summary.clone()))).unwrap();
    assert_eq!(reuse.cache_status, "prepared_cache_hit");
    assert_eq!(reuse.source_status, "osm");
    assert_eq!(reuse.warnings, vec!["w".to_string()]);
    // A forced refresh, a missing file or an unread sidecar prepares afresh.
    assert!(plan_prepared_cache(true, false, true, Some(Ok(summary.clone()))).is_none());
    assert!(plan_prepared_cache(false, false, false, Some(Ok(summary))).is_none());
    assert!(plan_prepared_cache(false, false, true, None).is_none());
}

#[test]
fn prepare_plan_reuses_an_entry_without_metadata_conservatively() {
    let reuse = plan_prepared_cache(
        false,
        true,
        true,
        Some(Err("prepared cache metadata missing at /x.meta.json; source status unknown".to_string())),
    )
    .unwrap();
    assert_eq!(reuse.cache_status, "prepared_cache_hit");
    assert_eq!(reuse.source_status, "cached_unknown");
    assert_eq!(
        reuse.warnings,
        vec!["prepared cache metadata missing at /x.meta.json; source status unknown".to_string()]
    );
}

#[test]
fn prepare_plan_retries_a_degraded_overture_entry() {
    let degraded = SourceSummary {
        source_status: "overture_fallback_to_osm".to_string(),
        warnings: vec![],
    };
    assert!(plan_prepared_cache(false, true, true, Some(Ok(degraded.clone()))).is_none());
    // Without Overture requested the same entry is reused.
    assert!(plan_prepared_cache(false, false, true, Some(Ok(degraded))).is_some());
}
