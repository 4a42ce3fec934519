//! The image sources' naming side: each source turns an image reference,
//! the platform and the image digest into a branch name.
use vstd::prelude::*;
use crate::naming::{branch_for_platform, container_image_to_branch, full_branch, image_branch, tar_branch, tar_path_to_branch};

verus! {

/// Why a source could not be set up or could not deliver an image.
#[derive(Debug, Clone, PartialEq, Eq, Structural)]
pub enum SourceError {
    /// The container tool that the source drives is not available.
    ToolUnavailable,
}

/// Images taken from a local Docker daemon.
#[derive(Debug, Clone, Copy, PartialEq, Eq, Structural)]
pub struct DockerSource;

/// Images taken from a local nerdctl / containerd installation.
#[derive(Debug, Clone, Copy, PartialEq, Eq, Structural)]
pub struct NerdctlSource;

/// Images given as a tarball on disk.
#[derive(Debug, Clone, Copy, PartialEq, Eq, Structural)]
pub struct TarSource;

impl DockerSource {
    /// A Docker source; it needs no setup.
    pub fn new() -> (r: Result<Self, SourceError>)
        ensures
            r.is_ok(),
    {
        Ok(DockerSource)
    }

    /// The source's name.
    pub fn name(&self) -> (r: &'static str)
        ensures
            r@ == "docker"@,
    {
        "docker"
    }

    /// `name#tag#os-arch#short-digest` for a container reference.
    pub fn branch_name(&self, image_name: &str, os_arch: &str, image_digest: &str) -> (r: String)
        ensures
            r@ == full_branch(image_branch(image_name@), os_arch@, image_digest@),
    {
        let base = container_image_to_branch(image_name);
        branch_for_platform(base.as_str(), os_arch, image_digest)
    }
}

impl NerdctlSource {
    /// A nerdctl source (whether the tool is installed is checked by the caller).
    pub fn new() -> (r: Result<Self, SourceError>)
        ensures
            r.is_ok(),
    {
        Ok(NerdctlSource)
    }

    /// A nerdctl source once the caller has checked for the tool: refused
    /// when the tool is not available.
    pub fn from_tool_check(available: bool) -> (r: Result<Self, SourceError>)
        ensures
            available ==> r == Ok::<Self, SourceError>(NerdctlSource),
            !available ==> r == Err::<Self, SourceError>(SourceError::ToolUnavailable),
    {
        if available { Ok(NerdctlSource) } else { Err(SourceError::ToolUnavailable) }
    }

    /// The source's name.
    pub fn name(&self) -> (r: &'static str)
        ensures
            r@ == "nerdctl"@,
    {
        "nerdctl"
    }

    /// `name#tag#os-arch#short-digest` for a container reference.
    pub fn branch_name(&self, image_name: &str, os_arch: &str, image_digest: &str) -> (r: String)
        ensures
            r@ == full_branch(image_branch(image_name@), os_arch@, image_digest@),
    {
        let base = container_image_to_branch(image_name);
        branch_for_platform(base.as_str(), os_arch, image_digest)
    }
}

impl TarSource {
    /// A tarball source; it needs no setup.
    pub fn new() -> (r: Result<Self, SourceError>)
        ensures
            r.is_ok(),
    {
        Ok(TarSource)
    }

    /// The source's name.
    pub fn name(&self) -> (r: &'static str)
        ensures
            r@ == "tar"@,
    {
        "tar"
    }

    /// `stem#os-arch#short-digest` for a tarball path.
    pub fn branch_name(&self, image_path: &str, os_arch: &str, image_digest: &str) -> (r: String)
        ensures
            r@ == full_branch(tar_branch(image_path@), os_arch@, image_digest@),
    {
        let base = tar_path_to_branch(image_path);
        branch_for_platform(base.as_str(), os_arch, image_digest)
    }
}

} // verus!
