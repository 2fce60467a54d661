use osm_world::launch::{
    renderer_launch_command, validate_path_inside, LaunchCommandError, LaunchSpec,
    PathConfinementError,
};

fn launch_request() -> LaunchSpec {
    LaunchSpec {
        osm_path: "/tmp/prepared/city.osm".to_string(),
        srtm_dir: Some("/tmp/srtm cache".to_string()),
        spawn_lat: Some(38.0005f64.to_string()),
        spawn_lon: Some((-120.9995f64).to_string()),
        extra_args: vec!["--visual-preset".to_string(), "showcase".to_string()],
    }
}

fn check_launch_command() {
    let project_root = "/tmp/osm world";
    let req = launch_request();

    let command = renderer_launch_command(project_root, &req).unwrap();

    assert_eq!(command.program, "cargo");
    assert_eq!(command.args[0], "run");
    assert_eq!(command.args[1], "--manifest-path");
    assert_eq!(command.args[2], "/tmp/osm world/Cargo.toml");
    assert!(command
        .args
        .windows(2)
        .any(|window| window == ["--input", "/tmp/prepared/city.osm"]));
    assert!(command
        .args
        .windows(2)
        .any(|window| window == ["--srtm-dir", "/tmp/srtm cache"]));
    assert!(command
        .args
        .windows(2)
        .any(|window| window == ["--spawn-lat", "38.0005"]));
    assert!(command
        .args
        .windows(2)
        .any(|window| window == ["--spawn-lon", "-120.9995"]));
    assert!(command
        .args
        .windows(2)
        .any(|window| window == ["--visual-preset", "showcase"]));
    assert!(command.command.contains("'/tmp/osm world/Cargo.toml'"));
}

#[test]
fn server_renderer_launch_command_uses_prepared_file_and_optional_runtime_flags() {
    check_launch_command();
}

#[test]
fn tests_renderer_launch_command_uses_prepared_file_and_optional_runtime_flags() {
    check_launch_command();
}

#[test]
fn launch_command_lists_arguments_in_order() {
    let mut req = launch_request();
    req.spawn_lat = None;
    req.spawn_lon = None;
    req.srtm_dir = Some("   ".to_string());
    req.extra_args = vec!["--width=800".to_string()];
    let command = renderer_launch_command("/srv/osm", &req).unwrap();
    assert_eq!(
        command.args,
        vec![
            "run",
            "--manifest-path",
            "/srv/osm/Cargo.toml",
            "--",
            "--input",
            "/tmp/prepared/city.osm",
            "--width=800"
        ]
    );
    assert_eq!(
        command.command,
        "cargo run --manifest-path /srv/osm/Cargo.toml -- --input /tmp/prepared/city.osm --width=800"
    );
    assert_eq!(command.command_cwd, "/srv/osm");
}

#[test]
fn launch_command_requires_an_osm_file() {
    let mut req = launch_request();
    req.osm_path = "/tmp/prepared/city.pbf".to_string();
    let err = renderer_launch_command("/srv/osm", &req).unwrap_err();
    assert!(matches!(err, LaunchCommandError::NotOsmFile));
    assert_eq!(err.message(), "renderer launch requires a prepared .osm file");
}

#[test]
fn launch_command_refuses_out_of_range_spawn_latitude() {
    let mut req = launch_request();
    req.spawn_lat = Some("91".to_string());
    let err = renderer_launch_command("/srv/osm", &req).unwrap_err();
    assert!(matches!(err, LaunchCommandError::InvalidSpawnLatitude(_)));
    assert!(err.message().starts_with("invalid spawn_lat: "));
}

#[test]
fn launch_command_refuses_non_finite_spawn_longitude() {
    let mut req = launch_request();
    req.spawn_lon = Some("inf".to_string());
    let err = renderer_launch_command("/srv/osm", &req).unwrap_err();
    assert!(matches!(err, LaunchCommandError::InvalidSpawnLongitude(_)));
    assert!(err.message().starts_with("invalid spawn_lon: "));
}

#[test]
fn launch_command_refuses_half_a_spawn_point() {
    let mut req = launch_request();
    req.spawn_lon = None;
    let err = renderer_launch_command("/srv/osm", &req).unwrap_err();
    assert!(matches!(err, LaunchCommandError::IncompleteSpawn));
    assert_eq!(err.message(), "spawn_lat and spawn_lon must be provided together");
}

#[test]
fn launch_command_checks_spawn_before_the_extension() {
    let mut req = launch_request();
    req.osm_path = "/tmp/prepared/city.pbf".to_string();
    req.spawn_lat = None;
    let err = renderer_launch_command("/srv/osm", &req).unwrap_err();
    assert!(matches!(err, LaunchCommandError::IncompleteSpawn));
}

#[test]
fn launch_command_refuses_unknown_renderer_flags() {
    let mut req = launch_request();
    req.extra_args = vec!["--exec".to_string(), "rm".to_string()];
    let err = renderer_launch_command("/srv/osm", &req).unwrap_err();
    assert!(err.message().starts_with("unsupported renderer flag(s): --exec."));
}

#[test]
fn sec005_accepts_path_inside_root() {
    let ok = validate_path_inside(
        Some("/var/cache/prepared/cache_key.osm"),
        "/var/cache/prepared",
        Some("/var/cache/prepared"),
        "osm_path",
    );
    assert_eq!(ok.unwrap(), "/var/cache/prepared/cache_key.osm");
}

#[test]
fn sec005_rejects_absolute_path_outside_root() {
    let err = validate_path_inside(
        Some("/tmp/other/outside.txt"),
        "/var/cache/prepared",
        Some("/var/cache/prepared"),
        "osm_path",
    )
    .unwrap_err();
    assert_eq!(err.message(), "osm_path must stay inside /var/cache/prepared");
}

#[test]
fn sec005_rejects_sibling_with_shared_prefix() {
    let err = validate_path_inside(
        Some("/var/cache/prepared-evil/x.osm"),
        "/var/cache/prepared",
        Some("/var/cache/prepared"),
        "osm_path",
    )
    .unwrap_err();
    assert!(matches!(err, PathConfinementError::Outside { .. }));
}

#[test]
fn sec005_rejects_nonexistent_path() {
    // The candidate does not exist, so it does not resolve on disk.
    let err = validate_path_inside(None, "/tmp/root", Some("/tmp/root"), "osm_path").unwrap_err();
    let msg = err.message();
    assert!(msg.contains("does not resolve"), "expected resolve error, got: {msg}");
}

#[test]
fn sec005_rejects_when_root_does_not_exist() {
    // The root itself does not exist, so it does not resolve on disk.
    let err = validate_path_inside(None, "/tmp/ghost-root", None, "osm_path").unwrap_err();
    let msg = err.message();
    assert!(msg.contains("not accessible"), "expected root error, got: {msg}");
    assert_eq!(msg, "osm_path root /tmp/ghost-root is not accessible");
}
