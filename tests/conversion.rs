use oci2git::digest_tracker::DigestTracker;
use oci2git::extracted_image::{default_repo_tags, derive_image_id, normalize_command, reconstruct_layers, HistoryEntry, Layer};
use oci2git::image_metadata::ImageMetadata;
use oci2git::notifier::{LogLevel, VerbosityLevel};
use oci2git::processor::{
    already_converted, commit_message, metadata_commit_message, next_step, os_arch, progress_document, record_layer, replay_plan,
    LayerStep,
};
use oci2git::successor_navigator::SuccessorNavigator;
use oci2git::tar_extractor::{
    classify_entry, directory_mode, file_mode, hardlink_target, has_gzip_magic, normalize_tar_path, symlink_target, EntryAction,
};

fn entry(created: &str, created_by: &str, empty: Option<bool>) -> HistoryEntry {
    HistoryEntry { created: created.to_string(), created_by: created_by.to_string(), comment: None, empty_layer: empty }
}

fn apply(layers: &[Layer], tracker: &mut DigestTracker, skip: usize) -> Vec<String> {
    let mut messages = Vec::new();
    for (i, layer) in layers.iter().enumerate().skip(skip) {
        match next_step(tracker, i, layer) {
            LayerStep::AlreadyPresent => {}
            LayerStep::Commit { message, .. } => {
                record_layer(tracker, layer);
                messages.push(message);
            }
        }
    }
    messages
}

#[test]
fn shell_prefixes_are_stripped() {
    assert_eq!(normalize_command("/bin/sh -c #(nop)  ENV FOO=bar"), "ENV FOO=bar");
    assert_eq!(normalize_command("/bin/sh -c apk add curl"), "apk add curl");
    assert_eq!(normalize_command("COPY file / # buildkit"), "COPY file / # buildkit");
    assert_eq!(normalize_command(""), "");
}

#[test]
fn history_is_paired_with_blobs_from_the_end() {
    let history = vec![
        entry("2023-01-01T00:00:00Z", "/bin/sh -c #(nop) ADD file:abc in /", None),
        entry("2023-01-01T00:00:01Z", "/bin/sh -c #(nop)  CMD [\"sh\"]", Some(true)),
        entry("2023-01-01T00:00:02Z", "/bin/sh -c apk add curl", Some(false)),
    ];
    let blobs = vec!["x/blobs/sha256/aaa".to_string(), "x/blobs/sha256/bbb".to_string()];
    let layers = reconstruct_layers(&history, &blobs, "2000-01-01T00:00:00+00:00");
    assert_eq!(layers.len(), 3);
    assert_eq!(layers[0].id, "aaa");
    assert_eq!(layers[0].digest, "sha256:aaa");
    assert_eq!(layers[0].tarball_path.as_deref(), Some("x/blobs/sha256/aaa"));
    assert_eq!(layers[0].created_at, "2023-01-01T00:00:00+00:00");
    assert_eq!(layers[1].id, "<empty-layer-1>");
    assert_eq!(layers[1].digest, "empty");
    assert!(layers[1].is_empty);
    assert_eq!(layers[2].digest, "sha256:bbb");
    assert_eq!(layers[2].command, "apk add curl");
}

#[test]
fn missing_blob_gives_no_tarball_and_bad_time_gives_now() {
    let history = vec![entry("yesterday", "RUN a", None), entry("2023-01-01T00:00:00Z", "RUN b", None)];
    let blobs = vec!["only.tar".to_string()];
    let layers = reconstruct_layers(&history, &blobs, "2000-01-01T00:00:00+00:00");
    assert_eq!(layers[0].digest, "no-tarball");
    assert_eq!(layers[0].id, "<empty-layer-0>");
    assert!(layers[0].tarball_path.is_none());
    assert_eq!(layers[0].created_at, "2000-01-01T00:00:00+00:00");
    assert_eq!(layers[1].digest, "sha256:only.tar");
    assert_eq!(commit_message(&layers[0]), "⚫ - RUN a");
    assert_eq!(commit_message(&layers[1]), "🟢 - RUN b");
}

// Empty layer scenario: the ENV step becomes a commit marked as empty.
#[test]
fn empty_layer_scenario() {
    let history = vec![
        entry("2023-01-01T00:00:00Z", "RUN mkdir /x", Some(false)),
        entry("2023-01-01T00:00:01Z", "ENV FOO=bar", Some(true)),
    ];
    let layers = reconstruct_layers(&history, &vec!["blobs/sha256/l1".to_string()], "2000-01-01T00:00:00+00:00");
    let mut tracker = DigestTracker::new();
    let messages = apply(&layers, &mut tracker, 0);
    assert_eq!(messages, vec!["🟢 - RUN mkdir /x".to_string(), "⚪️ - ENV FOO=bar".to_string()]);
    let doc = progress_document(&tracker);
    assert!(doc.contains("| `ENV FOO=bar` |  | `empty` | true |"));
    assert_eq!(metadata_commit_message(), "🛠️ - Metadata");
}

#[test]
fn no_layers_no_commits() {
    let layers = reconstruct_layers(&vec![], &vec![], "2000-01-01T00:00:00+00:00");
    assert!(layers.is_empty());
    let mut tracker = DigestTracker::new();
    assert!(apply(&layers, &mut tracker, 0).is_empty());
}

#[test]
fn two_reconstructions_give_the_same_messages() {
    let history = vec![entry("bad", "RUN a", None), entry("2023-01-01T00:00:00Z", "ENV X=1", Some(true))];
    let blobs = vec!["blobs/sha256/aa".to_string()];
    let a = reconstruct_layers(&history, &blobs, "2000-01-01T00:00:00+00:00");
    let b = reconstruct_layers(&history, &blobs, "2024-05-05T00:00:00+00:00");
    let ma: Vec<String> = a.iter().map(commit_message).collect();
    let mb: Vec<String> = b.iter().map(commit_message).collect();
    assert_eq!(ma, mb);
}

#[test]
fn second_run_finds_every_layer() {
    let history = vec![
        entry("2023-01-01T00:00:00Z", "RUN a", None),
        entry("2023-01-01T00:00:01Z", "ENV X=1", Some(true)),
    ];
    let blobs = vec!["blobs/sha256/aa".to_string()];
    let layers = reconstruct_layers(&history, &blobs, "2000-01-01T00:00:00+00:00");
    let mut tracker = DigestTracker::new();
    apply(&layers, &mut tracker, 0);
    let doc = progress_document(&tracker);
    let docs = vec![Some(doc)];
    for (i, layer) in layers.iter().enumerate() {
        assert_eq!(SuccessorNavigator::pick_candidate(&docs, i, layer), Some(0));
    }
    assert!(already_converted(true, layers.len(), layers.len()));
    assert!(!already_converted(false, layers.len(), layers.len()));
    let mut again = SuccessorNavigator::read_digests_from_commit(&docs[0]);
    assert!(apply(&layers, &mut again, 0).is_empty());
}

// Shared base: the app image's first layers are found in the base image's commits.
#[test]
fn shared_base_prefix_is_found() {
    let base_history = vec![entry("2023-01-01T00:00:00Z", "RUN base", None)];
    let app_history = vec![
        entry("2023-01-01T00:00:00Z", "RUN base", None),
        entry("2023-01-02T00:00:00Z", "RUN app1", None),
        entry("2023-01-03T00:00:00Z", "RUN app2", None),
    ];
    let base = reconstruct_layers(&base_history, &vec!["blobs/sha256/b0".to_string()], "now");
    let app = reconstruct_layers(
        &app_history,
        &vec!["blobs/sha256/b0".to_string(), "blobs/sha256/a1".to_string(), "blobs/sha256/a2".to_string()],
        "now",
    );
    let mut tracker = DigestTracker::new();
    apply(&base, &mut tracker, 0);
    let base_doc = Some(progress_document(&tracker));
    let unrelated = Some("# Image: Unknown\n\n".to_string());
    let docs = vec![unrelated, None, base_doc];
    assert_eq!(SuccessorNavigator::pick_candidate(&docs, 0, &app[0]), Some(2));
    assert_eq!(SuccessorNavigator::pick_candidate(&docs, 1, &app[1]), None);
    let mut branch = SuccessorNavigator::read_digests_from_commit(&docs[2]);
    let new_messages = apply(&app, &mut branch, 1);
    assert_eq!(new_messages, vec!["🟢 - RUN app1".to_string(), "🟢 - RUN app2".to_string()]);
}

#[test]
fn image_id_and_tags() {
    assert_eq!(derive_image_id(&Some("sha256:idx".to_string()), "blobs/sha256/cfg"), "sha256:idx");
    assert_eq!(derive_image_id(&Some(String::new()), "blobs/sha256/cfg"), "sha256:cfg");
    assert_eq!(derive_image_id(&None, "abc.json"), "sha256:abc");
    assert_eq!(derive_image_id(&None, "config"), "");
    assert_eq!(default_repo_tags(vec![], "/tmp/my-image.tar"), vec!["my-image:latest".to_string()]);
    assert_eq!(default_repo_tags(vec!["a:1".to_string()], "x.tar"), vec!["a:1".to_string()]);
    assert_eq!(os_arch("linux", "amd64"), "linux-amd64");
}

#[test]
fn gzip_magic_detection() {
    assert!(has_gzip_magic(0x1f, 0x8b));
    assert!(!has_gzip_magic(0x8b, 0x1f));
    assert!(!has_gzip_magic(b'u', b's'));
}

#[test]
fn archive_paths_stay_inside() {
    assert_eq!(normalize_tar_path("/etc/passwd"), "etc/passwd");
    assert_eq!(normalize_tar_path("./a/./b/"), "a/b");
    assert_eq!(normalize_tar_path("../../x"), "x");
    assert_eq!(normalize_tar_path("a/b/../../../c"), "c");
    assert_eq!(normalize_tar_path(""), "");
    assert_eq!(hardlink_target("/a/file"), "a/file");
    assert_eq!(symlink_target("/bin/busybox"), "bin/busybox");
    assert_eq!(symlink_target("../lib/x"), "lib/x");
    assert_eq!(symlink_target("../../etc"), "etc");
}

#[test]
fn whiteouts_and_opaque_markers() {
    assert_eq!(classify_entry("a/.wh.x"), EntryAction::Delete { dir: "a".to_string(), name: "x".to_string() });
    assert_eq!(classify_entry("a/.wh..wh..opq"), EntryAction::ClearDirectory { dir: "a".to_string() });
    assert_eq!(classify_entry(".wh.top"), EntryAction::Delete { dir: String::new(), name: "top".to_string() });
    assert_eq!(classify_entry("a/new"), EntryAction::Materialize);
    assert_eq!(classify_entry("a/.whx"), EntryAction::Materialize);
}

#[test]
fn permission_fixes() {
    assert_eq!(directory_mode(0o555), 0o755);
    assert_eq!(directory_mode(0o000), 0o700);
    assert_eq!(file_mode(0o000), 0o400);
    assert_eq!(file_mode(0o644), 0o644);
}

#[test]
fn verbosity_levels() {
    assert_eq!(VerbosityLevel::from_count(0), VerbosityLevel::Quiet);
    assert_eq!(VerbosityLevel::from_count(2), VerbosityLevel::Debug);
    assert_eq!(VerbosityLevel::from_count(9), VerbosityLevel::Trace);
    assert_eq!(VerbosityLevel::Quiet.to_log_level(), LogLevel::Warn);
    assert_eq!(VerbosityLevel::Trace.to_log_level(), LogLevel::Trace);
    assert!(VerbosityLevel::Quiet.uses_progress_display());
    assert!(!VerbosityLevel::Info.uses_progress_display());
}

#[test]
fn progress_document_holds_only_the_chain() {
    let mut tracker = DigestTracker::new();
    tracker.add_layer(0, "sha256:a".to_string(), "RUN a".to_string(), "2023-01-01T00:00:00+00:00".to_string(), false, None);
    let doc = progress_document(&tracker);
    let parsed = ImageMetadata::parse_markdown(&doc).unwrap();
    assert!(parsed.basic_info.is_none());
    assert!(parsed.container_config.is_none());
    assert_eq!(parsed.layer_digests.len(), 1);
}

#[test]
fn commit_without_image_md_has_empty_chain() {
    let tracker = SuccessorNavigator::read_digests_from_commit(&None);
    assert!(tracker.layer_digests.is_empty());
    let layer = reconstruct_layers(&vec![entry("2023-01-01T00:00:00Z", "RUN a", None)], &vec!["b/sha256/x".to_string()], "now")
        .remove(0);
    assert!(!SuccessorNavigator::commit_has_layer_at_position(&None, 0, &layer));
    assert_eq!(SuccessorNavigator::pick_candidate(&vec![None, None], 0, &layer), None);
}

#[test]
fn replay_plan_commits_each_new_layer_then_nothing() {
    let history = vec![
        entry("2023-01-01T00:00:00Z", "RUN a", None),
        entry("2023-01-01T00:00:01Z", "ENV X=1", Some(true)),
        entry("2023-01-01T00:00:02Z", "RUN b", None),
    ];
    let blobs = vec!["blobs/sha256/aa".to_string(), "blobs/sha256/bb".to_string()];
    let layers = reconstruct_layers(&history, &blobs, "now");
    let mut tracker = DigestTracker::new();
    let plan = replay_plan(&mut tracker, &layers, 0);
    let messages: Vec<&str> = plan.iter().map(|c| c.message.as_str()).collect();
    assert_eq!(messages, vec!["🟢 - RUN a", "⚪️ - ENV X=1", "🟢 - RUN b"]);
    assert_eq!(plan[2].apply.as_deref(), Some("blobs/sha256/bb"));
    assert!(plan[1].apply.is_none());
    assert_eq!(plan[2].image_md, progress_document(&tracker));
    assert_eq!(tracker.layer_digests.len(), 3);
    let mut again = DigestTracker::from_layers(tracker.layer_digests.clone());
    assert!(replay_plan(&mut again, &layers, 0).is_empty());
    assert_eq!(again.layer_digests.len(), 3);
}
