//! Documents the registry answers with: manifest lists, OCI manifests and
//! image configurations.

use vstd::prelude::*;
use crate::errors::Error;

verus! {

/// The platform an image targets; selects among the manifests of a list.
#[derive(Debug)]
pub struct Platform {
    pub architecture: String,
    pub os: String,
}

/// What a platform is: its two fields, as character sequences.
pub ghost struct PlatformV {
    pub architecture: Seq<char>,
    pub os: Seq<char>,
}

impl View for Platform {
    type V = PlatformV;

    open spec fn view(&self) -> PlatformV {
        PlatformV { architecture: self.architecture@, os: self.os@ }
    }
}

/// Structural agreement of two platforms: both fields equal.
pub open spec fn platform_matches(a: Platform, b: Platform) -> bool {
    a.architecture@ == b.architecture@ && a.os@ == b.os@
}

impl Clone for Platform {
    fn clone(&self) -> (r: Self)
        ensures
            r == *self,
    {
        Platform { architecture: self.architecture.clone(), os: self.os.clone() }
    }
}

impl PartialEq for Platform {
    fn eq(&self, other: &Self) -> (r: bool) {
        self.architecture == other.architecture && self.os == other.os
    }
}

impl vstd::std_specs::cmp::PartialEqSpecImpl for Platform {
    open spec fn obeys_eq_spec() -> bool {
        true
    }

    open spec fn eq_spec(&self, other: &Self) -> bool {
        platform_matches(*self, *other)
    }
}

/// The answer of the token endpoint.
#[derive(Debug)]
pub struct AuthResponse {
    pub token: String,
    pub access_token: String,
    pub expires_in: u64,
    pub issued_at: String,
}

/// One entry of a manifest list: the manifest digest for one platform.
#[derive(Debug)]
pub struct Manifest {
    pub digest: String,
    pub platform: Platform,
}

impl Clone for Manifest {
    fn clone(&self) -> (r: Self)
        ensures
            r == *self,
    {
        Manifest { digest: self.digest.clone(), platform: self.platform.clone() }
    }
}

/// A detail record of a registry error.
#[derive(Debug)]
pub struct ErrorDetail {
    pub ty: String,
    pub class: String,
    pub name: String,
    pub action: String,
}

/// One error of a registry answer.
#[derive(Debug)]
pub struct ManifestsError {
    pub code: String,
    pub message: String,
    pub detail: Vec<ErrorDetail>,
}

/// A manifest list: either the manifests per platform, or the errors the
/// registry answered with.
#[derive(Debug)]
pub struct Manifests {
    pub manifests: Option<Vec<Manifest>>,
    pub errors: Option<Vec<ManifestsError>>,
}

/// `i` is the first position of `ms` whose platform matches `p`.
pub open spec fn first_match_at(ms: Seq<Manifest>, p: Platform, i: int) -> bool {
    &&& 0 <= i < ms.len()
    &&& platform_matches(ms[i].platform, p)
    &&& forall|j: int| 0 <= j < i ==> !platform_matches((#[trigger] ms[j]).platform, p)
}

impl Manifests {
    /// The first manifest whose platform matches the requested one, if any.
    pub fn get_manifest_for_platform(&self, platform: &Platform) -> (r: Option<Manifest>)
        ensures
            match r {
                Some(m) => {
                    &&& self.manifests matches Some(ms)
                    &&& exists|i: int| #[trigger] first_match_at(ms@, *platform, i) && m == ms@[i]
                },
                None => match self.manifests {
                    Some(ms) => forall|i: int|
                        0 <= i < ms@.len() ==> !platform_matches(
                            (#[trigger] ms@[i]).platform,
                            *platform,
                        ),
                    None => true,
                },
            },
    {
        match &self.manifests {
            Some(ms) => {
                let mut i: usize = 0;
                while i < ms.len()
                    invariant
                        0 <= i <= ms.len(),
                        self.manifests matches Some(v) && v == *ms,
                        forall|j: int|
                            0 <= j < i ==> !platform_matches(
                                (#[trigger] ms@[j]).platform,
                                *platform,
                            ),
                    decreases ms.len() - i,
                {
                    if ms[i].platform == *platform {
                        let m = ms[i].clone();
                        proof {
                            assert(first_match_at(ms@, *platform, i as int));
                        }
                        return Some(m);
                    }
                    i = i + 1;
                }
                None
            },
            None => None,
        }
    }

    /// The registry's answer as a result: an error when the answer carries
    /// error records instead of manifests.
    ///
    /// Fails with the first error's message; with a fixed message when the
    /// error list itself is present but empty.
    pub fn validated(&self) -> (r: Result<(), Error>)
        ensures
            match r {
                Ok(()) => self.errors matches None,
                Err(e) => {
                    &&& self.errors matches Some(es)
                    &&& if es@.len() > 0 {
                        e matches Error::RemoteError(m) && m@ == es@[0].message@
                    } else {
                        e matches Error::RemoteError(m) && m@ == "errors present but empty"@
                    }
                },
            },
    {
        match &self.errors {
            Some(es) => {
                if es.len() > 0 {
                    Err(Error::RemoteError(es[0].message.clone()))
                } else {
                    Err(Error::RemoteError(String::from_str("errors present but empty")))
                }
            },
            None => Ok(()),
        }
    }
}

/// The labels and process settings of an image configuration.
#[derive(Debug)]
pub struct Config {
    pub env: Vec<String>,
    pub entrypoint: Vec<String>,
    pub cmd: Vec<String>,
    /// Label pairs, in document order.
    pub labels: Vec<(String, String)>,
    pub args_escaped: bool,
}

impl Config {
    /// The value of the first label with the given key, if any.
    pub fn label_value(&self, key: &String) -> (r: Option<String>)
        ensures
            match r {
                Some(v) => exists|i: int|
                    {
                        &&& 0 <= i < self.labels@.len()
                        &&& (#[trigger] self.labels@[i]).0@ == key@
                        &&& v@ == self.labels@[i].1@
                        &&& forall|j: int| 0 <= j < i ==> (#[trigger] self.labels@[j]).0@ != key@
                    },
                None => forall|i: int|
                    0 <= i < self.labels@.len() ==> (#[trigger] self.labels@[i]).0@ != key@,
            },
    {
        let mut i: usize = 0;
        while i < self.labels.len()
            invariant
                0 <= i <= self.labels.len(),
                forall|j: int| 0 <= j < i ==> (#[trigger] self.labels@[j]).0@ != key@,
            decreases self.labels.len() - i,
        {
            if self.labels[i].0 == *key {
                return Some(self.labels[i].1.clone());
            }
            i = i + 1;
        }
        None
    }
}

/// One build step of an image's history.
#[derive(Debug)]
pub struct History {
    pub created: String,
    pub created_by: String,
    pub comment: Option<String>,
    pub empty_layer: Option<bool>,
}

/// The root filesystem section of an image configuration.
#[derive(Debug)]
pub struct RootFs {
    pub fs_type: String,
    pub diff_ids: Vec<String>,
}

/// An image configuration blob.
#[derive(Debug)]
pub struct ImageConfig {
    pub architecture: String,
    pub config: Config,
    pub created: String,
    pub history: Vec<History>,
    pub os: String,
    pub rootfs: RootFs,
}

/// One layer of an OCI manifest.
#[derive(Debug)]
pub struct Layer {
    pub media_type: String,
    pub digest: String,
    pub size: u64,
}

/// The config section of an OCI manifest.
#[derive(Debug)]
pub struct OCIManifestConfig {
    pub media_type: String,
    pub digest: String,
    pub size: u64,
}

/// An OCI manifest: the config digest and the ordered layers.
#[derive(Debug)]
pub struct OCIManifest {
    pub schema_version: u64,
    pub media_type: String,
    pub config: OCIManifestConfig,
    pub layers: Vec<Layer>,
    pub annotations: Option<Vec<(String, String)>>,
}

impl OCIManifest {
    /// The layer digests in application order, bottom to top.
    pub fn layer_digests(&self) -> (r: Vec<String>)
        ensures
            r@.len() == self.layers@.len(),
            forall|i: int| 0 <= i < r@.len() ==> (#[trigger] r@[i])@ == self.layers@[i].digest@,
    {
        let mut out: Vec<String> = Vec::new();
        let mut i: usize = 0;
        while i < self.layers.len()
            invariant
                0 <= i <= self.layers.len(),
                out@.len() == i,
                forall|j: int| 0 <= j < i ==> (#[trigger] out@[j])@ == self.layers@[j].digest@,
            decreases self.layers.len() - i,
        {
            out.push(self.layers[i].digest.clone());
            i = i + 1;
        }
        out
    }
}

/// The manifest of a locally saved image archive.
#[derive(Debug)]
pub struct LocalImageManifest {
    pub config: String,
    pub repo_tags: Vec<String>,
    pub layers: Vec<String>,
}

} // verus!
