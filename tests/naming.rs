use oci2git::naming::{
    combine_branch_with_digest, container_image_to_branch, extract_short_digest, sanitize_branch_name,
    tar_path_to_branch, tar_to_branch,
};
use oci2git::sources::{DockerSource, NerdctlSource, SourceError, TarSource};
use std::path::Path;

#[test]
fn test_extract_short_digest() {
    assert_eq!(
        extract_short_digest("sha256:1234567890abcdef1234567890abcdef12345678"),
        Some("1234567890ab".to_string())
    );
    assert_eq!(extract_short_digest("sha256:abcdef123456"), Some("abcdef123456".to_string()));
    assert_eq!(extract_short_digest("invalid-id"), None);
    assert_eq!(extract_short_digest(""), None);
}

#[test]
fn test_sanitize_branch_name() {
    assert_eq!(sanitize_branch_name("hello-world"), "hello-world");
    assert_eq!(sanitize_branch_name("hello world"), "hello-world");
    assert_eq!(sanitize_branch_name("my:app/v1.0"), "my-app-v1-0");
    assert_eq!(sanitize_branch_name("file with spaces & symbols!"), "file-with-spaces-symbols");
    assert_eq!(sanitize_branch_name("---test---"), "test");
    assert_eq!(sanitize_branch_name("a..b..c"), "a-b-c");
    assert_eq!(sanitize_branch_name("nginx_1.21-alpine"), "nginx_1-21-alpine");
}

#[test]
fn test_container_image_to_branch() {
    assert_eq!(container_image_to_branch("hello-world:latest"), "hello-world#latest");
    assert_eq!(container_image_to_branch("nginx/nginx:1.21"), "nginx-nginx#1.21");
    assert_eq!(
        container_image_to_branch("registry.example.com/my-app:v1.0"),
        "registry.example.com-my-app#v1.0"
    );
    assert_eq!(container_image_to_branch("alpine@sha256:abc123"), "alpine-sha256#abc123");
    assert_eq!(container_image_to_branch("library/ubuntu:20.04"), "library-ubuntu#20.04");
    assert_eq!(container_image_to_branch("hello-world"), "hello-world#latest");
    assert_eq!(container_image_to_branch("nginx"), "nginx#latest");
    assert_eq!(container_image_to_branch("library/ubuntu"), "library-ubuntu#latest");
}

#[test]
fn test_tar_path_to_branch() {
    assert_eq!(tar_path_to_branch("/path/to/my-image.tar"), "my-image");
    assert_eq!(tar_path_to_branch("./nginx-latest.tar.gz"), "nginx-latest-tar");
    assert_eq!(tar_path_to_branch("ubuntu 20.04.tar"), "ubuntu-20-04");
    assert_eq!(tar_path_to_branch("my:app@v1.0.tar"), "my-app-v1-0");
    assert_eq!(tar_path_to_branch("hello world.tar"), "hello-world");
    assert_eq!(tar_path_to_branch("file with spaces & symbols!.tar"), "file-with-spaces-symbols");
}

#[test]
fn test_combine_branch_with_digest() {
    assert_eq!(
        combine_branch_with_digest("hello-world#latest", "sha256:1234567890abcdef"),
        "hello-world#latest#1234567890ab"
    );
    assert_eq!(combine_branch_with_digest("nginx#1.21", "sha256:9876543210fedcba"), "nginx#1.21#9876543210fe");
    assert_eq!(combine_branch_with_digest("my-image", "abcdef123456789"), "my-image#abcdef123456789");
}

#[test]
fn test_tar_to_branch() {
    assert_eq!(tar_to_branch("/path/to/my-image.tar"), "my-image");
    assert_eq!(tar_to_branch("./nginx-latest.tar.gz"), "nginx-latest-tar");
    assert_eq!(tar_to_branch("ubuntu 20.04.tar"), "ubuntu-20-04");
    assert_eq!(tar_to_branch("my:app@v1.0.tar"), "my-app-v1-0");
    assert_eq!(tar_to_branch("hello world.tar"), "hello-world");
    assert_eq!(tar_to_branch("file with spaces & symbols!.tar"), "file-with-spaces-symbols");
}

// The tarball source names a branch as its file stem joined to the digest.
#[test]
fn test_tar_source_branch_name() {
    let name = |path: &str, digest: &str| combine_branch_with_digest(&tar_to_branch(path), digest);
    assert_eq!(name("/path/to/my-image.tar", "sha256:1234567890abcdef"), "my-image#1234567890ab");
    assert_eq!(name("nginx-latest.tar", "sha256:9876543210fedcba"), "nginx-latest#9876543210fe");
    assert_eq!(name("ubuntu 20.04.tar", "sha256:abcdef123456789"), "ubuntu-20-04#abcdef123456");
    assert_eq!(name("ubuntu 20.04.tar", "abcdef123456789"), "ubuntu-20-04#abcdef123456789");
    let source = TarSource::new().unwrap();
    assert_eq!(source.branch_name("/path/to/my-image.tar", "linux-amd64", "sha256:1234567890abcdef"), "my-image#linux-amd64#1234567890ab");
    assert_eq!(source.branch_name("nginx-latest.tar", "linux-arm64", "sha256:9876543210fedcba"), "nginx-latest#linux-arm64#9876543210fe");
    assert_eq!(source.branch_name("ubuntu 20.04.tar", "linux-amd64", "abcdef123456789"), "ubuntu-20-04#linux-amd64#abcdef123456789");
}

#[test]
fn test_docker_source_branch_name() {
    let source = DockerSource::new().unwrap();
    assert_eq!(
        source.branch_name("hello-world:latest", "linux-amd64", "sha256:1234567890abcdef"),
        "hello-world#latest#linux-amd64#1234567890ab"
    );
    assert_eq!(
        source.branch_name("hello-world", "linux-arm64", "sha256:1234567890abcdef"),
        "hello-world#latest#linux-arm64#1234567890ab"
    );
    assert_eq!(
        source.branch_name("nginx/nginx:1.21", "linux-amd64", "sha256:9876543210fedcba"),
        "nginx-nginx#1.21#linux-amd64#9876543210fe"
    );
    assert_eq!(
        source.branch_name("nginx", "windows-amd64", "sha256:abcdef123456789"),
        "nginx#latest#windows-amd64#abcdef123456"
    );
    assert_eq!(
        source.branch_name("nginx", "linux-amd64", "abcdef123456789"),
        "nginx#latest#linux-amd64#abcdef123456789"
    );
}

#[test]
fn test_nerdctl_source_branch_name() {
    let source = NerdctlSource;
    assert_eq!(
        source.branch_name("hello-world:latest", "linux-amd64", "sha256:1234567890abcdef"),
        "hello-world#latest#linux-amd64#1234567890ab"
    );
    assert_eq!(
        source.branch_name("hello-world", "linux-arm64", "sha256:1234567890abcdef"),
        "hello-world#latest#linux-arm64#1234567890ab"
    );
    assert_eq!(
        source.branch_name("nginx/nginx:1.21", "linux-amd64", "sha256:9876543210fedcba"),
        "nginx-nginx#1.21#linux-amd64#9876543210fe"
    );
    assert_eq!(
        source.branch_name("nginx", "windows-amd64", "sha256:abcdef123456789"),
        "nginx#latest#windows-amd64#abcdef123456"
    );
    assert_eq!(
        source.branch_name("nginx", "linux-amd64", "abcdef123456789"),
        "nginx#latest#linux-amd64#abcdef123456789"
    );
}

#[test]
fn test_polymorphic_branch_naming() {
    let docker_source = DockerSource::new().unwrap();
    assert_eq!(
        docker_source.branch_name("hello-world:latest", "linux-amd64", "sha256:1234567890abcdef"),
        "hello-world#latest#linux-amd64#1234567890ab"
    );
    assert_eq!(
        docker_source.branch_name("nginx/nginx:1.21", "linux-arm64", "sha256:9876543210fedcba"),
        "nginx-nginx#1.21#linux-arm64#9876543210fe"
    );
    let tar_source = TarSource::new().unwrap();
    assert_eq!(
        tar_source.branch_name("/path/to/my-image.tar", "linux-amd64", "sha256:1234567890abcdef"),
        "my-image#linux-amd64#1234567890ab"
    );
    assert_eq!(
        tar_source.branch_name("ubuntu 20.04.tar", "windows-amd64", "sha256:abcdef123456789"),
        "ubuntu-20-04#windows-amd64#abcdef123456"
    );
}

#[test]
fn test_docker_source_creation() {
    let docker_source = DockerSource::new();
    assert!(docker_source.is_ok(), "Should be able to create DockerSource");
    let source = docker_source.unwrap();
    assert_eq!(source.name(), "docker");
}

#[test]
fn test_nerdctl_source_creation() {
    let nerdctl_source = NerdctlSource::new();
    assert!(nerdctl_source.is_ok(), "Should be able to create NerdctlSource");
    let source = nerdctl_source.unwrap();
    assert_eq!(source.name(), "nerdctl");
}

#[test]
fn test_tar_source_creation() {
    let tar_source = TarSource::new();
    assert!(tar_source.is_ok(), "Should be able to create TarSource");
    let source = tar_source.unwrap();
    assert_eq!(source.name(), "tar");
}

#[test]
fn test_universal_tar_backend_with_fixture() {
    const FIXTURE_TAR_PATH: &str = "tests/integration/fixtures/oci2git-test.tar";
    if !Path::new(FIXTURE_TAR_PATH).exists() {
        println!("Skipping test: fixture tar file not found at {}", FIXTURE_TAR_PATH);
        return;
    }
    let tar_source = TarSource::new().unwrap();
    assert_eq!(
        tar_source.branch_name(FIXTURE_TAR_PATH, "linux-amd64", "sha256:1234567890abcdef"),
        "oci2git-test#linux-amd64#1234567890ab"
    );
}

#[test]
fn placeholder_test() {
    let ok = true;
    assert!(ok);
}

#[test]
fn sanitize_keeps_unicode_letters_and_collapses_runs() {
    assert_eq!(sanitize_branch_name("  café -- bar  "), "café-bar");
    assert_eq!(sanitize_branch_name(""), "");
    assert_eq!(sanitize_branch_name("***"), "");
}

#[test]
fn tar_branch_edge_paths() {
    assert_eq!(tar_path_to_branch("/"), "tar-image");
    assert_eq!(tar_path_to_branch("a/.."), "tar-image");
    assert_eq!(tar_path_to_branch("dir/.hidden"), "hidden");
    assert_eq!(tar_path_to_branch("images/x.tar/"), "x");
}

#[test]
fn nerdctl_refused_without_the_tool() {
    assert_eq!(NerdctlSource::from_tool_check(false), Err(SourceError::ToolUnavailable));
    assert_eq!(NerdctlSource::from_tool_check(true), Ok(NerdctlSource));
}

#[test]
fn container_names_are_lowercased_tags_kept() {
    assert_eq!(container_image_to_branch("MyOrg/App:V1"), "myorg-app#V1");
    assert_eq!(container_image_to_branch("Alpine"), "alpine#latest");
    assert_eq!(container_image_to_branch("A@sha256:ABC"), "a-sha256#ABC");
    let source = DockerSource::new().unwrap();
    assert_eq!(
        source.branch_name("Library/Ubuntu:Focal", "linux-amd64", "sha256:1234567890abcdef"),
        "library-ubuntu#Focal#linux-amd64#1234567890ab"
    );
    assert_eq!(
        NerdctlSource.branch_name("NGINX", "linux-amd64", "sha256:1234567890abcdef"),
        "nginx#latest#linux-amd64#1234567890ab"
    );
}
