use osm_world::extra_args::positive_usize;
use osm_world::host_policy::{
    enforce_host_policy_decision, is_loopback_host, validate_spawn_pair, SpawnPairError,
};

#[test]
fn sec004_loopback_hosts_are_allowed_without_token_or_flag() {
    for host in ["127.0.0.1", "::1", "localhost", "127.1.2.3"] {
        assert!(
            enforce_host_policy_decision(host, false, false).is_ok(),
            "loopback host {host:?} should be allowed"
        );
        assert!(is_loopback_host(host), "is_loopback_host({host:?})");
    }
}

#[test]
fn sec004_non_loopback_host_rejected_without_token_or_flag() {
    let err = enforce_host_policy_decision("0.0.0.0", false, false).unwrap_err();
    assert!(
        err.message().contains("refusing to bind"),
        "unexpected error: {}",
        err.message()
    );
}

#[test]
fn sec004_non_loopback_host_allowed_with_allow_remote_host_flag() {
    assert!(enforce_host_policy_decision("0.0.0.0", true, false).is_ok());
}

#[test]
fn sec004_non_loopback_host_allowed_when_token_set() {
    assert!(enforce_host_policy_decision("0.0.0.0", false, true).is_ok());
}

#[test]
fn sec004_non_loopback_ipv6_wildcard_also_rejected() {
    // `::` binds all IPv6 interfaces; treated as remote by the guard.
    let err = enforce_host_policy_decision("::", false, false).unwrap_err();
    assert!(err.message().contains("refusing to bind"));
}

#[test]
fn host_policy_message_names_the_host_and_the_remedies() {
    let err = enforce_host_policy_decision("192.168.1.20", false, false).unwrap_err();
    assert_eq!(
        err.message(),
        "refusing to bind --host '192.168.1.20' without authentication: set OSM_WORLD_API_TOKEN or pass --allow-remote-host"
    );
    assert_eq!(err.host, "192.168.1.20");
}

#[test]
fn loopback_detection_trims_and_ignores_case() {
    assert!(is_loopback_host("  LocalHost "));
    assert!(is_loopback_host("\t127.0.0.1\n"));
    assert!(is_loopback_host("127.255.255.255"));
    assert!(is_loopback_host("0:0:0:0:0:0:0:1"));
    assert!(is_loopback_host("0::1"));
    assert!(is_loopback_host("::0:1"));
}

#[test]
fn loopback_detection_rejects_other_hosts() {
    assert!(!is_loopback_host("0.0.0.0"));
    assert!(!is_loopback_host("128.0.0.1"));
    assert!(!is_loopback_host("126.255.255.255"));
    assert!(!is_loopback_host("127.0.0.01"));
    assert!(!is_loopback_host("127.0.0"));
    assert!(!is_loopback_host("127.0.0.256"));
    assert!(!is_loopback_host("127.0.0.1.5"));
    assert!(!is_loopback_host("localhost.localdomain"));
    assert!(!is_loopback_host("::ffff:127.0.0.1"));
    assert!(!is_loopback_host("::2"));
    assert!(!is_loopback_host("1::"));
    assert!(!is_loopback_host(":::1"));
    assert!(!is_loopback_host(""));
    assert!(!is_loopback_host("example.com"));
}

#[test]
fn spawn_pair_must_be_complete() {
    assert!(validate_spawn_pair(false, false).is_ok());
    assert!(validate_spawn_pair(true, true).is_ok());
    assert_eq!(validate_spawn_pair(true, false), Err(SpawnPairError));
    assert_eq!(validate_spawn_pair(false, true), Err(SpawnPairError));
}

#[test]
fn rejects_one_sided_spawn_lat_flag() {
    // `--spawn-lat 38.65671` given without `--spawn-lon`.
    let err = validate_spawn_pair(true, false).unwrap_err();
    assert!(err
        .message()
        .contains("--spawn-lat and --spawn-lon must be provided together"));
}

#[test]
fn positive_usize_reads_counts_of_at_least_one() {
    assert_eq!(positive_usize("64"), Ok(64));
    assert_eq!(positive_usize("+7"), Ok(7));
    assert_eq!(positive_usize("1"), Ok(1));
    assert_eq!(positive_usize("0"), Err("must be at least 1".to_string()));
    assert_eq!(
        positive_usize(""),
        Err("invalid integer: cannot parse integer from empty string".to_string())
    );
    assert_eq!(
        positive_usize("-1"),
        Err("invalid integer: invalid digit found in string".to_string())
    );
    assert_eq!(
        positive_usize("99999999999999999999999"),
        Err("invalid integer: number too large to fit in target type".to_string())
    );
}

#[test]
fn loopback_detection_reads_addresses_as_the_standard_parser_does() {
    let loopback = [
        "127.0.0.0",
        "127.255.255.254",
        "0000:0000:0000:0000:0000:0000:0000:0001",
        "::0.0.0.1",
        "0:0::1",
    ];
    for s in loopback {
        assert!(is_loopback_host(s), "{s:?}");
    }
    let other = [
        "10.0.0.1",
        "255.255.255.255",
        "01.2.3.4",
        "1..2.3",
        ".1.2.3",
        "1.2.3.",
        "0:0:0:0:0:0:127.0.0.1",
        "00000::1",
        "::00001",
        "1:2:3:4:5:6:7::",
        "1:2:3:4:5:6:7:8:9",
        "1::2::3",
        "::1:",
        "FE80::1",
        "::FFFF:1",
        "g::1",
        "::1%lo",
        "[::1]",
        "127.0.0.1:80",
    ];
    for s in other {
        assert!(!is_loopback_host(s), "{s:?}");
    }
}
