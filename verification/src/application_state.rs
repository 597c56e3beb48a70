//! The local state store: tag bindings, stored images and the layer set.
//!
//! The whole state is one value, loaded once per invocation and written back
//! once at normal exit. Its collections keep their document order; contracts
//! speak of the maps and the set they induce.

use vstd::prelude::*;
use crate::errors::Error;
use crate::kv::{
    alist_get, alist_remove, alist_upsert, clone_string_vec, contains_str, filter_out_value,
    keys_unique, lemma_value_at, push_unique, str_set, strs_unique, view_map,
};
use crate::models::registry_models::{Platform, PlatformV};

verus! {

/// A layer digest together with its compressed size.
#[derive(Debug)]
pub struct Layer {
    pub digest: String,
    pub size: u64,
}

/// One materialized image, keyed by its config digest. Created once per
/// build and never mutated thereafter; `layers` keeps the application order
/// of the manifest, bottom to top.
#[derive(Debug)]
pub struct Image {
    pub platform: Platform,
    pub name: String,
    pub tag: String,
    pub layers: Vec<String>,
    pub size: u64,
}

/// What an image record is: its fields, with strings as character sequences.
pub ghost struct ImageV {
    pub platform: PlatformV,
    pub name: Seq<char>,
    pub tag: Seq<char>,
    pub layers: Seq<Seq<char>>,
    pub size: u64,
}

impl View for Image {
    type V = ImageV;

    open spec fn view(&self) -> ImageV {
        ImageV {
            platform: self.platform@,
            name: self.name@,
            tag: self.tag@,
            layers: self.layers.deep_view(),
            size: self.size,
        }
    }
}

impl Clone for Image {
    fn clone(&self) -> (r: Self)
        ensures
            r@ == self@,
            r.platform == self.platform,
            r.name == self.name,
            r.tag == self.tag,
            r.layers@ == self.layers@,
            r.size == self.size,
    {
        let r = Image {
            platform: self.platform.clone(),
            name: self.name.clone(),
            tag: self.tag.clone(),
            layers: clone_string_vec(&self.layers),
            size: self.size,
        };
        proof {
            assert(r.layers.deep_view() =~= self.layers.deep_view());
        }
        r
    }
}

/// The key a binding is stored under: `name:tag-os:architecture`.
pub open spec fn tag_key_spec(
    name: Seq<char>,
    tag: Seq<char>,
    os: Seq<char>,
    architecture: Seq<char>,
) -> Seq<char> {
    name + seq![':'] + tag + seq!['-'] + os + seq![':'] + architecture
}

/// Renders the binding key for a name, tag and platform.
pub fn tag_key(name: &str, tag: &str, platform: &Platform) -> (k: String)
    ensures
        k@ == tag_key_spec(name@, tag@, platform.os@, platform.architecture@),
{
    let mut k = name.to_owned();
    k.append(":");
    k.append(tag);
    k.append("-");
    k.append(platform.os.as_str());
    k.append(":");
    k.append(platform.architecture.as_str());
    proof {
        reveal_strlit(":");
        reveal_strlit("-");
        assert(":"@ =~= seq![':']);
        assert("-"@ =~= seq!['-']);
        assert(k@ =~= tag_key_spec(name@, tag@, platform.os@, platform.architecture@));
    }
    k
}

/// The persisted document: tag bindings, images by config digest, and the
/// set of locally stored layer digests.
#[derive(Debug)]
pub struct ApplicationState {
    /// Binding of `name:tag-os:architecture` keys to config digests.
    pub tagged_images: Vec<(String, String)>,
    /// The stored images, keyed by config digest.
    pub images: Vec<(String, Image)>,
    /// The layer digests stored locally.
    pub layers: Vec<String>,
}

impl ApplicationState {
    /// Each collection names each key once.
    pub open spec fn wf(self) -> bool {
        &&& keys_unique(self.tagged_images@)
        &&& keys_unique(self.images@)
        &&& strs_unique(self.layers@)
    }

    /// The bindings as a map from key to digest.
    pub open spec fn tag_map(self) -> Map<Seq<char>, Seq<char>> {
        view_map(self.tagged_images@)
    }

    /// The images as a map from config digest to record.
    pub open spec fn image_map(self) -> Map<Seq<char>, ImageV> {
        view_map(self.images@)
    }

    /// The layer digests as a set.
    pub open spec fn layer_set(self) -> Set<Seq<char>> {
        str_set(self.layers@)
    }

    /// Every binding points at a stored image: a tag binding never outlives
    /// the image it names.
    pub open spec fn bindings_covered(self) -> bool {
        forall|k: Seq<char>|
            #[trigger] self.tag_map().contains_key(k) ==> self.image_map().contains_key(
                self.tag_map()[k],
            )
    }

    /// Whether every binding points at a stored image.
    pub fn check_bindings_covered(&self) -> (r: bool)
        requires
            self.wf(),
        ensures
            r == self.bindings_covered(),
    {
        let mut i: usize = 0;
        while i < self.tagged_images.len()
            invariant
                0 <= i <= self.tagged_images@.len(),
                self.wf(),
                forall|j: int|
                    0 <= j < i ==> self.image_map().contains_key(
                        (#[trigger] self.tagged_images@[j]).1@,
                    ),
            decreases self.tagged_images@.len() - i,
        {
            if !self.has_image(&self.tagged_images[i].1) {
                proof {
                    let k = self.tagged_images@[i as int].0@;
                    lemma_value_at(self.tagged_images@, k, i as int);
                    assert(self.tag_map().contains_key(k));
                    assert(self.tag_map()[k] == self.tagged_images@[i as int].1@);
                }
                return false;
            }
            i = i + 1;
        }
        proof {
            assert forall|k: Seq<char>| #[trigger] self.tag_map().contains_key(k) implies self
                .image_map().contains_key(self.tag_map()[k]) by {
                let j = choose|j: int|
                    0 <= j < self.tagged_images@.len() && (#[trigger] self.tagged_images@[j]).0@
                        == k;
                lemma_value_at(self.tagged_images@, k, j);
            }
        }
        true
    }

    /// An empty state: no bindings, no images, no layers.
    pub fn new() -> (r: ApplicationState)
        ensures
            r.wf(),
            r.bindings_covered(),
            r.tag_map() == Map::<Seq<char>, Seq<char>>::empty(),
            r.image_map() == Map::<Seq<char>, ImageV>::empty(),
            r.layer_set() == Set::<Seq<char>>::empty(),
            r.tagged_images@.len() == 0,
            r.images@.len() == 0,
            r.layers@.len() == 0,
    {
        let r = ApplicationState { tagged_images: Vec::new(), images: Vec::new(), layers: Vec::new() };
        proof {
            assert(r.tag_map() =~= Map::<Seq<char>, Seq<char>>::empty());
            assert(r.image_map() =~= Map::<Seq<char>, ImageV>::empty());
            assert(r.layer_set() =~= Set::<Seq<char>>::empty());
        }
        r
    }

    /// The digest bound to this name, tag and platform, if any.
    pub fn get_stored_image_digest(&self, name: &str, tag: &str, platform: &Platform) -> (r: Option<
        String,
    >)
        requires
            self.wf(),
        ensures
            ({
                let k = tag_key_spec(name@, tag@, platform.os@, platform.architecture@);
                match r {
                    Some(d) => self.tag_map().contains_key(k) && d@ == self.tag_map()[k],
                    None => !self.tag_map().contains_key(k),
                }
            }),
    {
        let key = tag_key(name, tag, platform);
        match alist_get(&self.tagged_images, &key) {
            Some(d) => Some(d.clone()),
            None => None,
        }
    }

    /// Binds this name, tag and platform to the digest: an idempotent upsert.
    /// Images and layers are untouched.
    pub fn set_stored_image_digest(
        &mut self,
        name: &str,
        tag: &str,
        platform: &Platform,
        digest: String,
    )
        requires
            old(self).wf(),
        ensures
            final(self).wf(),
            final(self).tag_map() == old(self).tag_map().insert(
                tag_key_spec(name@, tag@, platform.os@, platform.architecture@),
                digest@,
            ),
            final(self).images == old(self).images,
            final(self).layers == old(self).layers,
    {
        let key = tag_key(name, tag, platform);
        alist_upsert(&mut self.tagged_images, key, digest);
    }

    /// The image record the binding for this name, tag and platform points
    /// at, if both the binding and the record exist.
    pub fn get_stored_image(&self, name: &str, tag: &str, platform: &Platform) -> (r: Option<Image>)
        requires
            self.wf(),
        ensures
            ({
                let k = tag_key_spec(name@, tag@, platform.os@, platform.architecture@);
                match r {
                    Some(img) => {
                        &&& self.tag_map().contains_key(k)
                        &&& self.image_map().contains_key(self.tag_map()[k])
                        &&& img@ == self.image_map()[self.tag_map()[k]]
                    },
                    None => !self.tag_map().contains_key(k) || !self.image_map().contains_key(
                        self.tag_map()[k],
                    ),
                }
            }),
    {
        let digest = self.get_stored_image_digest(name, tag, platform);
        match digest {
            Some(d) => match alist_get(&self.images, &d) {
                Some(img) => Some(img.clone()),
                None => None,
            },
            None => None,
        }
    }

    /// Whether an image record is stored under this digest.
    pub fn has_image(&self, digest: &String) -> (r: bool)
        requires
            self.wf(),
        ensures
            r == self.image_map().contains_key(digest@),
    {
        match alist_get(&self.images, digest) {
            Some(_) => true,
            None => false,
        }
    }

    /// A copy of the record stored under this digest, if any.
    pub fn image_of(&self, digest: &String) -> (r: Option<Image>)
        requires
            self.wf(),
        ensures
            match r {
                Some(img) => self.image_map().contains_key(digest@) && img@ == self.image_map()[
                    digest@
                ],
                None => !self.image_map().contains_key(digest@),
            },
    {
        match alist_get(&self.images, digest) {
            Some(img) => Some(img.clone()),
            None => None,
        }
    }

    /// Stores the record under the digest unless one is already there:
    /// images are immutable, the first writer wins.
    pub fn upsert_image(&mut self, digest: String, image: Image)
        requires
            old(self).wf(),
        ensures
            final(self).wf(),
            old(self).image_map().contains_key(digest@) ==> *final(self) == *old(self),
            !old(self).image_map().contains_key(digest@) ==> {
                &&& final(self).image_map() == old(self).image_map().insert(digest@, image@)
                &&& final(self).tagged_images == old(self).tagged_images
                &&& final(self).layers == old(self).layers
            },
    {
        if self.has_image(&digest) {
            return ;
        }
        alist_upsert(&mut self.images, digest, image);
    }

    /// Drops the record stored under the digest; fails when none is there.
    /// The caller removes the bindings that pointed at it.
    pub fn remove_image(&mut self, digest: &String) -> (r: Result<(), Error>)
        requires
            old(self).wf(),
        ensures
            final(self).wf(),
            match r {
                Ok(()) => {
                    &&& old(self).image_map().contains_key(digest@)
                    &&& final(self).image_map() == old(self).image_map().remove(digest@)
                    &&& final(self).tagged_images == old(self).tagged_images
                    &&& final(self).layers == old(self).layers
                },
                Err(e) => {
                    &&& e matches Error::NotFound
                    &&& !old(self).image_map().contains_key(digest@)
                    &&& *final(self) == *old(self)
                },
            },
    {
        if alist_remove(&mut self.images, digest) {
            Ok(())
        } else {
            proof {
                assert(old(self).image_map() =~= old(self).image_map().remove(digest@));
            }
            Err(Error::NotFound)
        }
    }

    /// Drops every binding that points at this digest — an image's own tag
    /// bindings — and no other; the rest keep their order, and images and
    /// layers are untouched.
    pub fn remove_bindings_to(&mut self, digest: &String)
        requires
            old(self).wf(),
        ensures
            final(self).wf(),
            final(self).tagged_images@ == old(self).tagged_images@.filter(
                crate::kv::keeps_value(digest@),
            ),
            final(self).tag_map() == Map::<Seq<char>, Seq<char>>::new(
                |k: Seq<char>| old(self).tag_map().contains_key(k) && old(self).tag_map()[k]
                    != digest@,
                |k: Seq<char>| old(self).tag_map()[k],
            ),
            final(self).images == old(self).images,
            final(self).layers == old(self).layers,
    {
        filter_out_value(&mut self.tagged_images, digest);
    }

    /// Whether this layer digest is stored locally.
    pub fn has_layer(&self, digest: &String) -> (r: bool)
        ensures
            r == self.layer_set().contains(digest@),
    {
        contains_str(&self.layers, digest)
    }

    /// Records the layer digest as stored; bindings and images are untouched.
    pub fn add_layer(&mut self, digest: String)
        requires
            old(self).wf(),
        ensures
            final(self).wf(),
            final(self).layer_set() == old(self).layer_set().insert(digest@),
            final(self).tagged_images == old(self).tagged_images,
            final(self).images == old(self).images,
    {
        push_unique(&mut self.layers, digest);
    }
}

/// The state a command works on. The surrounding binary loads it before the
/// command and persists it exactly once, at normal completion.
#[derive(Debug)]
pub struct StateHandle {
    pub state: ApplicationState,
}

impl StateHandle {
    /// Wraps a loaded state.
    pub fn new(state: ApplicationState) -> (r: StateHandle)
        ensures
            r.state == state,
    {
        StateHandle { state }
    }
}

} // verus!
