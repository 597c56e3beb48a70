//! Where the tool keeps its data, under one configured base directory.
//!
//! The base path is built once from the command line and threaded through;
//! no ambient global holds it.

use vstd::prelude::*;

verus! {

/// The configured base directory all local data lies under.
pub struct BasePaths {
    pub base: String,
}

impl BasePaths {
    /// Wraps the configured base directory.
    pub fn new(base: String) -> (r: BasePaths)
        ensures
            r.base == base,
    {
        BasePaths { base }
    }

    /// The persisted state document.
    pub fn get_app_state_path(&self) -> (r: String)
        ensures
            r@ == self.base@ + "/state.json"@,
    {
        let mut p = self.base.clone();
        p.append("/state.json");
        p
    }

    /// Where decompressed layers would lie.
    pub fn get_layers_path(&self) -> (r: String)
        ensures
            r@ == self.base@ + "/layers"@,
    {
        let mut p = self.base.clone();
        p.append("/layers");
        p
    }

    /// The layer store: one compressed archive per digest.
    pub fn get_layers_compressed_path(&self) -> (r: String)
        ensures
            r@ == self.base@ + "/layers_compressed"@,
    {
        let mut p = self.base.clone();
        p.append("/layers_compressed");
        p
    }

    /// Where assembled images lie unless an explicit output path is given.
    pub fn get_images_path(&self) -> (r: String)
        ensures
            r@ == self.base@ + "/images"@,
    {
        let mut p = self.base.clone();
        p.append("/images");
        p
    }
}

/// Where the host container runtime keeps its unpacked layers.
pub fn get_docker_layers_path() -> (r: String)
    ensures
        r@ == "/var/lib/docker/overlay2"@,
{
    String::from_str("/var/lib/docker/overlay2")
}

} // verus!
