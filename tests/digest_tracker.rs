use oci2git::digest_tracker::{DigestTracker, LayerDigest};
use oci2git::extracted_image::Layer;

#[test]
fn test_digest_tracker_creation() {
    let tracker = DigestTracker::new();
    assert_eq!(tracker.layer_digests.len(), 0);
    assert!(tracker.layer_digests.is_empty());
}

#[test]
fn test_add_and_get_layer() {
    let mut tracker = DigestTracker::new();
    tracker.add_layer(
        0,
        "sha256:abc123".to_string(),
        "FROM alpine".to_string(),
        "2023-01-01T00:00:00Z".to_string(),
        false,
        None,
    );
    let layer = tracker.get_layer(0).unwrap();
    assert_eq!(layer.digest, "sha256:abc123");
    assert_eq!(layer.command, "FROM alpine");
    assert!(!layer.is_empty);
}

#[test]
fn test_extract_digest_from_tarball_path() {
    let digest1 = DigestTracker::extract_digest_from_tarball_path("blobs/sha256/abc123def456");
    assert_eq!(digest1, "sha256:abc123def456");
    let digest2 = DigestTracker::extract_digest_from_tarball_path("abc123def456");
    assert_eq!(digest2, "sha256:abc123def456");
    let digest3 = DigestTracker::extract_digest_from_tarball_path("sha256:abc123def456");
    assert_eq!(digest3, "sha256:abc123def456");
}

fn layer(id: &str, command: &str, created_at: &str, is_empty: bool, tarball: Option<&str>, digest: &str) -> Layer {
    Layer {
        id: id.to_string(),
        command: command.to_string(),
        created_at: created_at.to_string(),
        is_empty,
        tarball_path: tarball.map(|t| t.to_string()),
        digest: digest.to_string(),
        comment: Some(command.to_string()),
    }
}

// Layer creation times are RFC 3339 in UTC as the timestamp library writes them.
#[test]
fn test_layer_matches() {
    let mut tracker = DigestTracker::new();
    tracker.add_layer(0, "sha256:layer1".to_string(), "FROM alpine".to_string(), "2023-01-01T00:00:00Z".to_string(), false, None);
    tracker.add_layer(1, "sha256:layer2".to_string(), "RUN apk add curl".to_string(), "2023-01-01T01:00:00Z".to_string(), false, None);
    tracker.add_layer(2, "empty".to_string(), "ENV PATH=/bin".to_string(), "2023-01-01T02:00:00Z".to_string(), true, None);

    let matching_layer1 = layer("layer1", "FROM alpine", "2023-01-01T00:00:00+00:00", false, Some("layer1.tar"), "sha256:layer1");
    assert!(tracker.layer_matches(0, &matching_layer1));
    let matching_layer2 = layer("layer2", "RUN apk add curl", "2023-01-01T01:00:00+00:00", false, Some("layer2.tar"), "sha256:layer2");
    assert!(tracker.layer_matches(1, &matching_layer2));
    let matching_empty = layer("<empty-layer-2>", "ENV PATH=/bin", "2023-01-01T02:00:00+00:00", true, None, "empty");
    assert!(tracker.layer_matches(2, &matching_empty));

    let other_digest = layer("layerX", "FROM alpine", "2023-01-01T00:00:00+00:00", false, Some("x.tar"), "sha256:layerX");
    assert!(!tracker.layer_matches(0, &other_digest));
    let other_time = layer("layer1", "FROM alpine", "2023-01-02T00:00:00+00:00", false, Some("layer1.tar"), "sha256:layer1");
    assert!(!tracker.layer_matches(0, &other_time));
    let other_command = layer("<empty-layer-2>", "ENV PATH=/usr/bin", "2023-01-01T02:00:00+00:00", true, None, "empty");
    assert!(!tracker.layer_matches(2, &other_command));
    let emptiness_differs = layer("layer1", "FROM alpine", "2023-01-01T00:00:00+00:00", true, None, "empty");
    assert!(!tracker.layer_matches(0, &emptiness_differs));
    assert!(!tracker.layer_matches(3, &matching_layer1));
}

#[test]
fn layer_ids_become_digests() {
    assert_eq!(DigestTracker::extract_digest_from_layer_id("abc"), "sha256:abc");
    assert_eq!(DigestTracker::extract_digest_from_layer_id("sha256:abc"), "sha256:abc");
    assert_eq!(DigestTracker::extract_digest_from_layer_id("<empty-layer-3>"), "<empty-layer-3>");
    assert_eq!(DigestTracker::extract_digest_from_tarball_path(""), "unknown");
    assert_eq!(DigestTracker::extract_digest_from_tarball_path("x/sha256/sha256:abc"), "sha256:sha256:abc");
}

#[test]
fn get_layer_past_the_end_is_none() {
    let tracker = DigestTracker::from_layers(vec![LayerDigest {
        digest: "sha256:a".to_string(),
        command: "RUN a".to_string(),
        created: "2023-01-01T00:00:00Z".to_string(),
        is_empty: false,
        comment: None,
    }]);
    assert!(tracker.get_layer(0).is_some());
    assert!(tracker.get_layer(1).is_none());
}
