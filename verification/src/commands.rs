//! What each command decides and how it changes the state.
//!
//! The surrounding binary fetches registry documents, downloads blobs and
//! runs host tools; everything it needs to decide — cache hits, which layers
//! to fetch, which bindings and layers a removal drops — is computed here.

use vstd::prelude::*;
use crate::application_state::{tag_key_spec, ApplicationState, Image, ImageV};
use crate::errors::Error;
use crate::kv::{
    clone_string_vec, contains_str, first_occ, keys_unique, lemma_first_occ_at, lemma_value_at,
    push_unique, seq_has_str, str_set, strs_unique, view_map,
};
use crate::models::output_models::{ImageInfoResult, ListImagesResult, PruneResult, RemoveImageResult};
use crate::models::registry_models::Platform;

verus! {

/// The file suffix of an assembled image.
pub open spec fn img_suffix() -> Seq<char> {
    seq!['.', 'i', 'm', 'g']
}

/// Where an image for this digest is produced by default.
pub open spec fn image_path_spec(folder: Seq<char>, digest: Seq<char>) -> Seq<char> {
    folder + seq!['/'] + digest + img_suffix()
}

/// Renders the default output path, `<folder>/<digest>.img`.
pub fn image_file_path(images_folder: &str, digest: &str) -> (r: String)
    ensures
        r@ == image_path_spec(images_folder@, digest@),
{
    let mut p = images_folder.to_owned();
    p.append("/");
    p.append(digest);
    p.append(".img");
    proof {
        reveal_strlit("/");
        reveal_strlit(".img");
        assert("/"@ =~= seq!['/']);
        assert(".img"@ =~= img_suffix());
        assert(p@ =~= image_path_spec(images_folder@, digest@));
    }
    p
}

/// The info about an image: whether some version is stored, and whether the
/// stored one is the remote config digest.
pub fn image_info_result(
    state: &ApplicationState,
    name: &str,
    tag: &str,
    platform: &Platform,
    remote_config_digest: &String,
) -> (r: ImageInfoResult)
    requires
        state.wf(),
    ensures
        r.digest@ == remote_config_digest@,
        ({
            let k = tag_key_spec(name@, tag@, platform.os@, platform.architecture@);
            &&& r.downloaded == state.tag_map().contains_key(k)
            &&& r.is_latest == (state.tag_map().contains_key(k) && state.tag_map()[k]
                == remote_config_digest@)
        }),
{
    let stored = state.get_stored_image_digest(name, tag, platform);
    let downloaded = stored.is_some();
    let is_latest = match &stored {
        Some(v) => *v == *remote_config_digest,
        None => false,
    };
    ImageInfoResult { digest: remote_config_digest.clone(), downloaded, is_latest }
}

/// What a build does once the remote config digest is known: reuse the
/// stored image, or fetch and assemble. Either way the image is stored
/// locally once the command completes, so the answer's `downloaded` flag is
/// set on every successful build.
pub enum BuildPlan {
    /// The bound digest equals the remote one and no alternate output path
    /// was asked for: reuse the record's size and path, fetch nothing,
    /// assemble nothing.
    CacheHit { digest: String, size: u64, file_path: String, downloaded: bool },
    /// Fetch what is missing and run the assembler towards `file_path`.
    Rebuild { digest: String, file_path: String, downloaded: bool },
}

/// Whether the cached image can be reused: the binding for this key holds
/// the remote config digest and no alternate output path was asked for.
pub open spec fn cache_hit(
    state: ApplicationState,
    k: Seq<char>,
    config_digest: Seq<char>,
    outfile: Option<String>,
) -> bool {
    &&& outfile matches None
    &&& state.tag_map().contains_key(k)
    &&& state.tag_map()[k] == config_digest
}

/// Decides between cache hit and rebuild.
///
/// On a hit the plan carries no fetch work and no assembly: the build then
/// performs no layer fetch and no assembler run.
pub fn plan_build(
    state: &ApplicationState,
    name: &str,
    tag: &str,
    platform: &Platform,
    config_digest: &String,
    outfile: &Option<String>,
    images_folder: &str,
) -> (r: BuildPlan)
    requires
        state.wf(),
        state.bindings_covered(),
    ensures
        ({
            let k = tag_key_spec(name@, tag@, platform.os@, platform.architecture@);
            match r {
                BuildPlan::CacheHit { digest, size, file_path, downloaded } => {
                    &&& cache_hit(*state, k, config_digest@, *outfile)
                    &&& digest@ == config_digest@
                    &&& size == state.image_map()[config_digest@].size
                    &&& file_path@ == image_path_spec(images_folder@, config_digest@)
                    &&& downloaded
                },
                BuildPlan::Rebuild { digest, file_path, downloaded } => {
                    &&& !cache_hit(*state, k, config_digest@, *outfile)
                    &&& digest@ == config_digest@
                    &&& downloaded
                    &&& match outfile {
                        Some(o) => file_path@ == o@,
                        None => file_path@ == image_path_spec(images_folder@, config_digest@),
                    }
                },
            }
        }),
{
    let stored = state.get_stored_image_digest(name, tag, platform);
    let hit = match (&stored, outfile) {
        (Some(v), None) => *v == *config_digest,
        _ => false,
    };
    if hit {
        match state.image_of(config_digest) {
            Some(img) => BuildPlan::CacheHit {
                digest: config_digest.clone(),
                size: img.size,
                file_path: image_file_path(images_folder, config_digest.as_str()),
                downloaded: true,
            },
            None => {
                proof {
                    assert(false);
                }
                BuildPlan::Rebuild {
                    digest: config_digest.clone(),
                    file_path: image_file_path(images_folder, config_digest.as_str()),
                    downloaded: true,
                }
            },
        }
    } else {
        let file_path = match outfile {
            Some(o) => o.clone(),
            None => image_file_path(images_folder, config_digest.as_str()),
        };
        BuildPlan::Rebuild { digest: config_digest.clone(), file_path, downloaded: true }
    }
}

/// The layer digests that still have to be fetched: those wanted and not
/// present, each named once.
pub fn missing_layers(wanted: &Vec<String>, present: &Vec<String>) -> (r: Vec<String>)
    ensures
        strs_unique(r@),
        str_set(r@) == str_set(wanted@).difference(str_set(present@)),
        forall|a: int, b: int|
            0 <= a < b < r@.len() ==> first_occ(wanted@, (#[trigger] r@[a])@) < first_occ(
                wanted@,
                (#[trigger] r@[b])@,
            ),
{
    broadcast use crate::kv::lemma_str_set_contains;

    let mut out: Vec<String> = Vec::new();
    let mut i: usize = 0;
    while i < wanted.len()
        invariant
            0 <= i <= wanted@.len(),
            strs_unique(out@),
            forall|d: Seq<char>|
                #[trigger] str_set(out@).contains(d) ==> str_set(wanted@).contains(d) && !str_set(
                    present@,
                ).contains(d),
            forall|j: int|
                0 <= j < i ==> str_set(present@).contains((#[trigger] wanted@[j])@) || str_set(
                    out@,
                ).contains(wanted@[j]@),
            forall|m: int|
                0 <= m < out@.len() ==> 0 <= #[trigger] first_occ(wanted@, out@[m]@) < i
                    && wanted@[first_occ(wanted@, out@[m]@)]@ == out@[m]@,
            forall|a: int, b: int|
                0 <= a < b < out@.len() ==> first_occ(wanted@, (#[trigger] out@[a])@) < first_occ(
                    wanted@,
                    (#[trigger] out@[b])@,
                ),
        decreases wanted@.len() - i,
    {
        let ghost out_b = out@;
        let ghost dd = wanted@[i as int]@;
        if !contains_str(present, &wanted[i]) {
            proof {
                assert(seq_has_str(wanted@, dd));
            }
            push_unique(&mut out, wanted[i].clone());
            proof {
                assert(str_set(out@) == str_set(out_b).insert(dd));
                assert(str_set(out@).contains(dd));
                assert forall|d: Seq<char>| #[trigger] str_set(out@).contains(d) implies str_set(
                    wanted@,
                ).contains(d) && !str_set(present@).contains(d) by {
                    if d != dd {
                        assert(str_set(out_b).contains(d));
                    }
                }
                if !seq_has_str(out_b, dd) {
                    assert(out@ == out_b.push(wanted@[i as int]));
                    assert forall|j: int| 0 <= j < i implies (#[trigger] wanted@[j])@ != dd by {
                        if wanted@[j]@ == dd {
                            assert(str_set(present@).contains(wanted@[j]@) || str_set(
                                out_b,
                            ).contains(wanted@[j]@));
                        }
                    }
                    lemma_first_occ_at(wanted@, dd, i as int);
                    assert(out@[out@.len() - 1]@ == dd);
                }
            }
        }
        i = i + 1;
    }
    proof {
        assert forall|d: Seq<char>| true implies #[trigger] str_set(out@).contains(d) == str_set(
            wanted@,
        ).difference(str_set(present@)).contains(d) by {
            if str_set(wanted@).contains(d) && !str_set(present@).contains(d) {
                let j = choose|j: int| 0 <= j < wanted@.len() && (#[trigger] wanted@[j])@ == d;
                assert(str_set(present@).contains((wanted@[j])@) || str_set(out@).contains(
                    wanted@[j]@,
                ));
            }
        }
        assert(str_set(out@) =~= str_set(wanted@).difference(str_set(present@)));
    }
    out
}

/// Fetching what the first call reported missing leaves a second call over
/// the same digests with nothing to fetch: network work happens only once.
pub proof fn lemma_fetch_missing_idempotent(wanted: Set<Seq<char>>, present: Set<Seq<char>>)
    ensures
        wanted.difference(present.union(wanted.difference(present))) == Set::<Seq<char>>::empty(),
{
    assert(wanted.difference(present.union(wanted.difference(present))) =~= Set::<
        Seq<char>,
    >::empty());
}

/// The in-image bootloader path, read from the required configuration label.
pub fn bootloader_path_label(config: &crate::models::registry_models::ImageConfig) -> (r: Result<
    String,
    Error,
>)
    ensures
        match r {
            Ok(p) => exists|i: int|
                {
                    &&& 0 <= i < config.config.labels@.len()
                    &&& (#[trigger] config.config.labels@[i]).0@ == "whaledrive.bootloader.path"@
                    &&& p@ == config.config.labels@[i].1@
                },
            Err(e) => e matches Error::BootloaderPathMissing && forall|i: int|
                0 <= i < config.config.labels@.len() ==> (#[trigger] config.config.labels@[i]).0@
                    != "whaledrive.bootloader.path"@,
        },
{
    let key = String::from_str("whaledrive.bootloader.path");
    match config.config.label_value(&key) {
        Some(v) => Ok(v),
        None => Err(Error::BootloaderPathMissing),
    }
}

/// The bootloader path without its leading separator, relative to the mount
/// root; fails when the label does not name an absolute path.
pub fn strip_leading_separator(p: &String) -> (r: Result<String, Error>)
    ensures
        match r {
            Ok(rel) => p@.len() > 0 && p@[0] == '/' && rel@ == p@.subrange(1, p@.len() as int),
            Err(e) => e matches Error::IOError(_) && (p@.len() == 0 || p@[0] != '/'),
        },
{
    let s = p.as_str();
    let n = s.unicode_len();
    if n == 0 {
        return Err(Error::IOError(String::from_str("bootloader path is empty")));
    }
    let c = s.get_char(0);
    if c == '/' {
        let rest = s.substring_char(1, n);
        Ok(rest.to_owned())
    } else {
        Err(Error::IOError(String::from_str("bootloader path has no leading separator")))
    }
}

/// Records a finished build: the image record is stored first-writer-wins,
/// the tag is rebound to the config digest, and the fetched layers join the
/// layer set. Run only after assembly fully succeeded.
pub fn apply_build_success(
    state: &mut ApplicationState,
    name: &str,
    tag: &str,
    platform: &Platform,
    config_digest: &String,
    layers: Vec<String>,
    size: u64,
)
    requires
        old(state).wf(),
        old(state).bindings_covered(),
    ensures
        final(state).wf(),
        final(state).bindings_covered(),
        final(state).tag_map() == old(state).tag_map().insert(
            tag_key_spec(name@, tag@, platform.os@, platform.architecture@),
            config_digest@,
        ),
        ({
            let record = ImageV {
                platform: platform@,
                name: name@,
                tag: tag@,
                layers: layers.deep_view(),
                size: size,
            };
            final(state).image_map() == if old(state).image_map().contains_key(config_digest@) {
                old(state).image_map()
            } else {
                old(state).image_map().insert(config_digest@, record)
            }
        }),
        final(state).layer_set() == old(state).layer_set().union(str_set(layers@)),
{
    let ghost st0 = *old(state);
    let layer_list = clone_string_vec(&layers);
    let mut i: usize = 0;
    while i < layer_list.len()
        invariant
            0 <= i <= layer_list@.len(),
            layer_list@ == layers@,
            state.wf(),
            state.tagged_images == st0.tagged_images,
            state.images == st0.images,
            state.layer_set() == st0.layer_set().union(
                Set::new(|d: Seq<char>| exists|j: int| 0 <= j < i && (#[trigger] layers@[j])@ == d),
            ),
        decreases layer_list@.len() - i,
    {
        let ghost before = state.layer_set();
        state.add_layer(layer_list[i].clone());
        proof {
            assert(state.layer_set() =~= st0.layer_set().union(
                Set::new(
                    |d: Seq<char>| exists|j: int| 0 <= j < i + 1 && (#[trigger] layers@[j])@ == d,
                ),
            ));
        }
        i = i + 1;
    }
    proof {
        assert(state.layer_set() =~= st0.layer_set().union(str_set(layers@)));
    }
    let record = Image {
        platform: platform.clone(),
        name: name.to_owned(),
        tag: tag.to_owned(),
        layers,
        size,
    };
    proof {
        assert(record@ == ImageV {
            platform: platform@,
            name: name@,
            tag: tag@,
            layers: record.layers.deep_view(),
            size: size,
        });
    }
    state.upsert_image(config_digest.clone(), record);
    state.set_stored_image_digest(name, tag, platform, config_digest.clone());
    proof {
        let k = tag_key_spec(name@, tag@, platform.os@, platform.architecture@);
        assert forall|k2: Seq<char>| #[trigger] state.tag_map().contains_key(k2) implies state
            .image_map().contains_key(state.tag_map()[k2]) by {
            if k2 == k {
                assert(state.tag_map()[k2] == config_digest@);
                assert(state.image_map().contains_key(config_digest@));
            } else {
                assert(st0.tag_map().contains_key(k2));
                assert(state.tag_map()[k2] == st0.tag_map()[k2]);
                assert(st0.image_map().contains_key(st0.tag_map()[k2]));
            }
        }
    }
}

/// Whether some stored image references the layer digest `d`.
pub open spec fn referenced(m: Map<Seq<char>, ImageV>, d: Seq<char>) -> bool {
    exists|k: Seq<char>| #[trigger] m.contains_key(k) && m[k].layers.contains(d)
}

/// The layer digests some stored image references.
pub open spec fn layer_kept(m: Map<Seq<char>, ImageV>) -> spec_fn(String) -> bool {
    |d: String| referenced(m, d@)
}

/// The layer digests no stored image references.
pub open spec fn layer_dropped(m: Map<Seq<char>, ImageV>) -> spec_fn(String) -> bool {
    |d: String| !referenced(m, d@)
}

/// Whether some image of the list references the layer digest.
fn layer_referenced(images: &Vec<(String, Image)>, d: &String) -> (r: bool)
    requires
        keys_unique(images@),
    ensures
        r == referenced(view_map(images@), d@),
{
    let ghost m = view_map(images@);
    let mut i: usize = 0;
    while i < images.len()
        invariant
            0 <= i <= images@.len(),
            keys_unique(images@),
            m == view_map(images@),
            forall|j: int| 0 <= j < i ==> !(#[trigger] images@[j]).1@.layers.contains(d@),
        decreases images@.len() - i,
    {
        if contains_str(&images[i].1.layers, d) {
            proof {
                let k = images@[i as int].0@;
                lemma_value_at(images@, k, i as int);
                let jw = choose|jw: int|
                    0 <= jw < images@[i as int].1.layers@.len() && (#[trigger] images@[
                        i as int
                    ].1.layers@[jw])@ == d@;
                assert(images@[i as int].1@.layers[jw] == d@);
                assert(m.contains_key(k) && m[k].layers.contains(d@));
            }
            return true;
        }
        proof {
            assert forall|jw: int|
                0 <= jw < images@[i as int].1@.layers.len() implies (#[trigger] images@[
                i as int
            ].1@.layers[jw]) != d@ by {
                assert(images@[i as int].1@.layers[jw] == (images@[i as int].1.layers@[jw])@);
            }
        }
        i = i + 1;
    }
    proof {
        if referenced(m, d@) {
            let k = choose|k: Seq<char>| #[trigger] m.contains_key(k) && m[k].layers.contains(d@);
            let j = choose|j: int| 0 <= j < images@.len() && (#[trigger] images@[j]).0@ == k;
            lemma_value_at(images@, k, j);
            assert(images@[j].1@.layers.contains(d@));
        }
    }
    false
}

/// Drops from the layer set every digest no stored image references, and
/// reports exactly those, in order; a referenced digest never leaves.
fn retain_referenced(state: &mut ApplicationState) -> (removed: Vec<String>)
    requires
        old(state).wf(),
    ensures
        final(state).wf(),
        final(state).tagged_images == old(state).tagged_images,
        final(state).images == old(state).images,
        final(state).layers@ == old(state).layers@.filter(layer_kept(old(state).image_map())),
        removed@ == old(state).layers@.filter(layer_dropped(old(state).image_map())),
        final(state).layer_set() == Set::new(
            |d: Seq<char>|
                old(state).layer_set().contains(d) && referenced(old(state).image_map(), d),
        ),
        str_set(removed@) == Set::new(
            |d: Seq<char>|
                old(state).layer_set().contains(d) && !referenced(old(state).image_map(), d),
        ),
        strs_unique(removed@),
{
    broadcast use crate::kv::lemma_str_set_contains;

    let ghost st0 = *old(state);
    let ghost l0 = old(state).layers@;
    let ghost m0 = view_map(old(state).images@);
    let mut kept: Vec<String> = Vec::new();
    let mut removed: Vec<String> = Vec::new();
    let mut i: usize = 0;
    proof {
        reveal(Seq::filter);
        assert(l0.subrange(0, 0).filter(layer_kept(m0)) =~= Seq::<String>::empty());
        assert(l0.subrange(0, 0).filter(layer_dropped(m0)) =~= Seq::<String>::empty());
    }
    while i < state.layers.len()
        invariant
            0 <= i <= state.layers@.len(),
            *state == st0,
            state.layers@ == l0,
            strs_unique(l0),
            keys_unique(state.images@),
            m0 == view_map(state.images@),
            strs_unique(kept@),
            strs_unique(removed@),
            kept@ == l0.subrange(0, i as int).filter(layer_kept(m0)),
            removed@ == l0.subrange(0, i as int).filter(layer_dropped(m0)),
            forall|d: Seq<char>|
                #[trigger] str_set(kept@).contains(d) <==> (exists|j: int|
                    0 <= j < i && (#[trigger] l0[j])@ == d) && referenced(m0, d),
            forall|d: Seq<char>|
                #[trigger] str_set(removed@).contains(d) <==> (exists|j: int|
                    0 <= j < i && (#[trigger] l0[j])@ == d) && !referenced(m0, d),
        decreases state.layers@.len() - i,
    {
        let d = state.layers[i].clone();
        let ghost dd = l0[i as int]@;
        let ghost kept_b = kept@;
        let ghost removed_b = removed@;
        proof {
            assert(d@ == dd);
        }
        let is_ref = layer_referenced(&state.images, &d);
        if is_ref {
            push_unique(&mut kept, d);
        } else {
            push_unique(&mut removed, d);
        }
        proof {
            reveal(Seq::filter);
            let pre = l0.subrange(0, i as int);
            let cur = l0.subrange(0, i + 1);
            assert(cur.drop_last() =~= pre);
            assert(cur.last() == l0[i as int]);
            if seq_has_str(kept_b, dd) {
                assert(str_set(kept_b).contains(dd));
                assert(exists|j: int| 0 <= j < i && (#[trigger] l0[j])@ == dd);
                let j = choose|j: int| 0 <= j < i && (#[trigger] l0[j])@ == dd;
                assert(l0[j]@ != l0[i as int]@);
                assert(false);
            }
            if seq_has_str(removed_b, dd) {
                assert(str_set(removed_b).contains(dd));
                assert(exists|j: int| 0 <= j < i && (#[trigger] l0[j])@ == dd);
                let j = choose|j: int| 0 <= j < i && (#[trigger] l0[j])@ == dd;
                assert(l0[j]@ != l0[i as int]@);
                assert(false);
            }
            if is_ref {
                assert(str_set(kept@) == str_set(kept_b).insert(dd));
                assert(kept@ == kept_b.push(l0[i as int]));
                assert((layer_kept(m0))(l0[i as int]));
                assert(!(layer_dropped(m0))(l0[i as int]));
                assert(kept@ == cur.filter(layer_kept(m0)));
                assert(removed@ == cur.filter(layer_dropped(m0)));
            } else {
                assert(str_set(removed@) == str_set(removed_b).insert(dd));
                assert(removed@ == removed_b.push(l0[i as int]));
                assert(!(layer_kept(m0))(l0[i as int]));
                assert((layer_dropped(m0))(l0[i as int]));
                assert(kept@ == cur.filter(layer_kept(m0)));
                assert(removed@ == cur.filter(layer_dropped(m0)));
            }
            assert forall|d2: Seq<char>| true implies (#[trigger] str_set(kept@).contains(d2) <==> (
            exists|j: int| 0 <= j < i + 1 && (#[trigger] l0[j])@ == d2) && referenced(m0, d2)) by {
                if str_set(kept@).contains(d2) {
                    if is_ref && d2 == dd {
                        assert(l0[i as int]@ == d2);
                    } else {
                        assert(str_set(kept_b).contains(d2));
                    }
                }
                if (exists|j: int| 0 <= j < i + 1 && (#[trigger] l0[j])@ == d2) && referenced(
                    m0,
                    d2,
                ) {
                    let j = choose|j: int| 0 <= j < i + 1 && (#[trigger] l0[j])@ == d2;
                    if j == i as int {
                        assert(is_ref);
                        assert(str_set(kept@).contains(d2));
                    } else {
                        assert(str_set(kept_b).contains(d2));
                    }
                }
            }
            assert forall|d2: Seq<char>| true implies (#[trigger] str_set(removed@).contains(d2)
                <==> (exists|j: int| 0 <= j < i + 1 && (#[trigger] l0[j])@ == d2) && !referenced(
                m0,
                d2,
            )) by {
                if str_set(removed@).contains(d2) {
                    if !is_ref && d2 == dd {
                        assert(l0[i as int]@ == d2);
                    } else {
                        assert(str_set(removed_b).contains(d2));
                    }
                }
                if (exists|j: int| 0 <= j < i + 1 && (#[trigger] l0[j])@ == d2) && !referenced(
                    m0,
                    d2,
                ) {
                    let j = choose|j: int| 0 <= j < i + 1 && (#[trigger] l0[j])@ == d2;
                    if j == i as int {
                        assert(!is_ref);
                        assert(str_set(removed@).contains(d2));
                    } else {
                        assert(str_set(removed_b).contains(d2));
                    }
                }
            }
        }
        i = i + 1;
    }
    state.layers = kept;
    proof {
        assert(l0.subrange(0, l0.len() as int) =~= l0);
        assert(state.layer_set() =~= Set::new(
            |d: Seq<char>| st0.layer_set().contains(d) && referenced(st0.image_map(), d),
        ));
        assert(str_set(removed@) =~= Set::new(
            |d: Seq<char>| st0.layer_set().contains(d) && !referenced(st0.image_map(), d),
        ));
    }
    removed
}

/// Cleans the layer set: every digest no stored image references leaves and
/// is reported, in order; bindings and images stay as they are.
pub fn prune(state: &mut ApplicationState) -> (r: PruneResult)
    requires
        old(state).wf(),
    ensures
        final(state).wf(),
        final(state).tagged_images == old(state).tagged_images,
        final(state).images == old(state).images,
        final(state).layers@ == old(state).layers@.filter(layer_kept(old(state).image_map())),
        r.layers@ == old(state).layers@.filter(layer_dropped(old(state).image_map())),
        final(state).layer_set() == Set::new(
            |d: Seq<char>|
                old(state).layer_set().contains(d) && referenced(old(state).image_map(), d),
        ),
        str_set(r.layers@) == Set::new(
            |d: Seq<char>|
                old(state).layer_set().contains(d) && !referenced(old(state).image_map(), d),
        ),
        strs_unique(r.layers@),
{
    let removed = retain_referenced(state);
    PruneResult { layers: removed }
}

/// Removes the image bound to this name, tag and platform: its own tag
/// bindings leave with it, and with `prune` also exactly the layer digests
/// no remaining image references.
pub fn remove_image(
    state: &mut ApplicationState,
    name: &str,
    tag: &str,
    platform: &Platform,
    prune_layers: bool,
) -> (r: Result<RemoveImageResult, Error>)
    requires
        old(state).wf(),
        old(state).bindings_covered(),
    ensures
        final(state).wf(),
        final(state).bindings_covered(),
        ({
            let k = tag_key_spec(name@, tag@, platform.os@, platform.architecture@);
            match r {
                Ok(res) => {
                    &&& old(state).tag_map().contains_key(k)
                    &&& res.digest@ == old(state).tag_map()[k]
                    &&& final(state).tagged_images@ == old(state).tagged_images@.filter(
                        crate::kv::keeps_value(res.digest@),
                    )
                    &&& final(state).tag_map() == Map::<Seq<char>, Seq<char>>::new(
                        |k2: Seq<char>|
                            old(state).tag_map().contains_key(k2) && old(state).tag_map()[k2]
                                != res.digest@,
                        |k2: Seq<char>| old(state).tag_map()[k2],
                    )
                    &&& final(state).image_map() == old(state).image_map().remove(res.digest@)
                    &&& (prune_layers ==> {
                        &&& final(state).layers@ == old(state).layers@.filter(
                            layer_kept(final(state).image_map()),
                        )
                        &&& res.removed_layers@ == old(state).layers@.filter(
                            layer_dropped(final(state).image_map()),
                        )
                        &&& final(state).layer_set() == Set::new(
                            |d: Seq<char>|
                                old(state).layer_set().contains(d) && referenced(
                                    final(state).image_map(),
                                    d,
                                ),
                        )
                        &&& str_set(res.removed_layers@) == Set::new(
                            |d: Seq<char>|
                                old(state).layer_set().contains(d) && !referenced(
                                    final(state).image_map(),
                                    d,
                                ),
                        )
                    })
                    &&& (!prune_layers ==> final(state).layers == old(state).layers
                        && res.removed_layers@.len() == 0)
                },
                Err(e) => {
                    &&& e matches Error::NotFound
                    &&& !old(state).tag_map().contains_key(k)
                    &&& *final(state) == *old(state)
                },
            }
        }),
{
    let ghost st0 = *old(state);
    let digest = match state.get_stored_image_digest(name, tag, platform) {
        Some(d) => d,
        None => {
            return Err(Error::NotFound);
        },
    };
    state.remove_bindings_to(&digest);
    let ghost k = tag_key_spec(name@, tag@, platform.os@, platform.architecture@);
    proof {
        assert(st0.image_map().contains_key(digest@));
    }
    match state.remove_image(&digest) {
        Ok(()) => {},
        Err(_) => {
            proof {
                assert(false);
            }
            return Err(Error::NotFound);
        },
    }
    proof {
        assert forall|k2: Seq<char>| #[trigger] state.tag_map().contains_key(k2) implies state
            .image_map().contains_key(state.tag_map()[k2]) by {
            assert(st0.tag_map().contains_key(k2) && st0.tag_map()[k2] != digest@);
            assert(state.tag_map()[k2] == st0.tag_map()[k2]);
            assert(st0.image_map().contains_key(st0.tag_map()[k2]));
        }
    }
    let removed_layers = if prune_layers {
        retain_referenced(state)
    } else {
        Vec::new()
    };
    Ok(RemoveImageResult { digest, removed_layers })
}

/// All stored images, keyed by config digest, in state order.
pub fn list_images(state: &ApplicationState) -> (r: ListImagesResult)
    ensures
        r.images@.len() == state.images@.len(),
        forall|i: int|
            0 <= i < r.images@.len() ==> (#[trigger] r.images@[i]).0@ == state.images@[i].0@
                && r.images@[i].1@ == state.images@[i].1@,
{
    let mut out: Vec<(String, Image)> = Vec::new();
    let mut i: usize = 0;
    while i < state.images.len()
        invariant
            0 <= i <= state.images@.len(),
            out@.len() == i,
            forall|j: int|
                0 <= j < i ==> (#[trigger] out@[j]).0@ == state.images@[j].0@ && out@[j].1@
                    == state.images@[j].1@,
        decreases state.images@.len() - i,
    {
        out.push((state.images[i].0.clone(), state.images[i].1.clone()));
        i = i + 1;
    }
    ListImagesResult { images: out }
}

/// Forgets everything: no bindings, no images, no layers remain.
pub fn purge(state: &mut ApplicationState)
    ensures
        final(state).wf(),
        final(state).bindings_covered(),
        final(state).tagged_images@.len() == 0,
        final(state).images@.len() == 0,
        final(state).layers@.len() == 0,
        final(state).tag_map() == Map::<Seq<char>, Seq<char>>::empty(),
        final(state).image_map() == Map::<Seq<char>, ImageV>::empty(),
        final(state).layer_set() == Set::<Seq<char>>::empty(),
{
    state.tagged_images.clear();
    state.images.clear();
    state.layers.clear();
    proof {
        assert(state.tag_map() =~= Map::<Seq<char>, Seq<char>>::empty());
        assert(state.image_map() =~= Map::<Seq<char>, ImageV>::empty());
        assert(state.layer_set() =~= Set::<Seq<char>>::empty());
    }
}

} // verus!
