//! The values the commands answer with.

use vstd::prelude::*;
use crate::application_state::Image;

verus! {

/// The answer of the info command.
#[derive(Debug)]
pub struct ImageInfoResult {
    /// Digest of the remote image configuration.
    pub digest: String,
    /// Is some version of this image stored locally?
    pub downloaded: bool,
    /// Is the stored version the same digest as the remote one?
    pub is_latest: bool,
}

/// The answer of the build command.
#[derive(Debug)]
pub struct MakeImageResult {
    /// Digest of the resulting image.
    pub digest: String,
    /// Size of the resulting image in bytes.
    pub size: u64,
    /// Was some version of this image already stored locally?
    pub downloaded: bool,
    /// Where the produced image lies.
    pub file_path: String,
}

/// The answer of the listing command.
#[derive(Debug)]
pub struct ListImagesResult {
    /// The stored images, keyed by config digest, in state order.
    pub images: Vec<(String, Image)>,
}

/// The answer of the remove command.
#[derive(Debug)]
pub struct RemoveImageResult {
    /// Digest of the removed image.
    pub digest: String,
    /// The layer digests that were dropped with it.
    pub removed_layers: Vec<String>,
}

/// The answer of the prune command.
#[derive(Debug)]
pub struct PruneResult {
    /// The layer digests that were dropped.
    pub layers: Vec<String>,
}

} // verus!
