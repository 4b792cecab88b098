use intdb::NetworkPath;
use sha2::Digest;

#[test]
fn it_works() {
    assert_eq!(2 + 2, 4);
}

#[test]
fn test_path_creation() {
    let path = NetworkPath::from_switches(&["s1", "s2", "s3"]);
    assert_eq!(path.length(), 3);
    assert!(!path.is_empty());
    assert_eq!(path.source(), Some(&"s1".to_string()));
    assert_eq!(path.destination(), Some(&"s3".to_string()));
}

#[test]
fn test_path_hash() {
    let path1 = NetworkPath::from_switches(&["s1", "s2", "s3"]);
    let path2 = NetworkPath::from_switches(&["s1", "s2", "s3"]);
    let path3 = NetworkPath::from_switches(&["s1", "s2", "s4"]);

    assert_eq!(path1.hash(), path2.hash());
    assert_ne!(path1.hash(), path3.hash());
}

#[test]
fn test_path_hash_is_sha256_of_delimited_switches() {
    // The exact digest: every switch id followed by "->".
    let path = NetworkPath::from_switches(&["s1", "s2"]);
    let expected = format!("{:x}", sha2::Sha256::digest("s1->s2->".as_bytes()));
    assert_eq!(path.hash(), expected);

    let single = NetworkPath::from_switches(&["s1"]);
    let expected_single = format!("{:x}", sha2::Sha256::digest("s1->".as_bytes()));
    assert_eq!(single.hash(), expected_single);
}

#[test]
fn test_subpath_contains() {
    let path = NetworkPath::from_switches(&["s1", "s2", "s3", "s4"]);

    assert!(path.contains_subpath(&["s2".to_string(), "s3".to_string()]));
    assert!(path.contains_subpath(&["s1".to_string(), "s2".to_string(), "s3".to_string()]));
    assert!(!path.contains_subpath(&["s2".to_string(), "s4".to_string()]));
    assert!(path.contains_subpath(&[])); // Empty subpath should return true
}

#[test]
fn test_path_prefix_suffix() {
    let path = NetworkPath::from_switches(&["s1", "s2", "s3", "s4"]);

    assert!(path.starts_with(&["s1".to_string(), "s2".to_string()]));
    assert!(!path.starts_with(&["s2".to_string(), "s3".to_string()]));

    assert!(path.ends_with(&["s3".to_string(), "s4".to_string()]));
    assert!(!path.ends_with(&["s2".to_string(), "s3".to_string()]));
}

#[test]
fn test_subpath_extraction() {
    let path = NetworkPath::from_switches(&["s1", "s2", "s3", "s4"]);

    let sub = path.subpath(1, 3).unwrap();
    assert_eq!(sub.switches, vec!["s2", "s3"]);

    assert!(path.subpath(2, 1).is_none()); // Invalid range
    assert!(path.subpath(0, 10).is_none()); // Out of bounds
}

#[test]
fn test_path_display() {
    let path = NetworkPath::from_switches(&["s1", "s2", "s3"]);
    assert_eq!(path.display(), "s1 -> s2 -> s3");
}

#[test]
fn test_path_hash_survives_switch_serialization() {
    // The hash depends on the switch identifiers alone: rebuilding a
    // path from switches that passed through a JSON round trip yields
    // the same hash.
    let path = NetworkPath::from_switches(&["s1", "s2", "s3"]);
    let json = serde_json::to_string(&path.switches).unwrap();
    let switches: Vec<String> = serde_json::from_str(&json).unwrap();
    let rebuilt = NetworkPath::new(switches);
    assert_eq!(path.switches, rebuilt.switches);
    assert_eq!(path.hash(), rebuilt.hash());
}
