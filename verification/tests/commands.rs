use whaledrive::application_state::{ApplicationState, Image};
use whaledrive::cli_commands::{output_error_if_failed, required_commands};
use whaledrive::commands::{
    apply_build_success, bootloader_path_label, image_file_path, image_info_result, list_images,
    missing_layers, plan_build, prune, remove_image, strip_leading_separator, BuildPlan,
};
use whaledrive::docker_client::parse_image_reference;
use whaledrive::errors::Error;
use whaledrive::models::input_models::ImageArg;
use whaledrive::models::registry_models::{
    Config, ImageConfig, Manifest, Manifests, ManifestsError, Platform, RootFs,
};
use whaledrive::paths::BasePaths;

fn platform(os: &str, arch: &str) -> Platform {
    Platform { architecture: String::from(arch), os: String::from(os) }
}

fn strings(v: Vec<&str>) -> Vec<String> {
    v.into_iter().map(String::from).collect()
}

#[test]
fn info_reports_downloaded_and_latest() {
    let mut st = ApplicationState::new();
    let p = platform("linux", "amd64");
    let remote = String::from("sha256:new");
    let r = image_info_result(&st, "nginx", "latest", &p, &remote);
    assert_eq!(r.digest, "sha256:new");
    assert!(!r.downloaded);
    assert!(!r.is_latest);
    st.set_stored_image_digest("nginx", "latest", &p, String::from("sha256:old"));
    let r = image_info_result(&st, "nginx", "latest", &p, &remote);
    assert!(r.downloaded);
    assert!(!r.is_latest);
    st.set_stored_image_digest("nginx", "latest", &p, String::from("sha256:new"));
    let r = image_info_result(&st, "nginx", "latest", &p, &remote);
    assert!(r.downloaded);
    assert!(r.is_latest);
}

#[test]
fn first_build_on_empty_state_rebuilds_and_records_everything() {
    // An empty state, a remote config digest and its manifest layer order.
    let mut st = ApplicationState::new();
    let p = platform("linux", "amd64");
    let digest = String::from("sha256:cfg");
    let plan = plan_build(&st, "nginx", "latest", &p, &digest, &None, "/data/images");
    match plan {
        BuildPlan::Rebuild { digest: d, file_path, downloaded } => {
            assert_eq!(d, "sha256:cfg");
            assert_eq!(file_path, "/data/images/sha256:cfg.img");
            assert!(file_path.ends_with("sha256:cfg.img"));
            // The image is downloaded once the build completes.
            assert!(downloaded);
        },
        _ => panic!("an empty state cannot be a cache hit"),
    }
    // Every layer is missing, in manifest order.
    let wanted = strings(vec!["l1", "l2"]);
    let fetch = missing_layers(&wanted, &st.layers);
    assert_eq!(fetch, strings(vec!["l1", "l2"]));
    // After a successful assembly the state holds the image, the binding and
    // the layers.
    apply_build_success(&mut st, "nginx", "latest", &p, &digest, wanted, 40960);
    assert_eq!(st.images.len(), 1);
    assert_eq!(st.images[0].0, "sha256:cfg");
    assert_eq!(st.images[0].1.layers, strings(vec!["l1", "l2"]));
    assert_eq!(
        st.get_stored_image_digest("nginx", "latest", &p).unwrap(),
        "sha256:cfg"
    );
    assert_eq!(st.tagged_images[0].0, "nginx:latest-linux:amd64");
    assert!(st.has_layer(&String::from("l1")) && st.has_layer(&String::from("l2")));
}

#[test]
fn repeated_build_is_a_cache_hit_with_no_fetch_and_no_assembly() {
    let mut st = ApplicationState::new();
    let p = platform("linux", "amd64");
    let digest = String::from("sha256:cfg");
    apply_build_success(&mut st, "nginx", "latest", &p, &digest, strings(vec!["l1"]), 40960);
    let plan = plan_build(&st, "nginx", "latest", &p, &digest, &None, "/data/images");
    match plan {
        BuildPlan::CacheHit { digest: d, size, file_path, downloaded } => {
            assert_eq!(d, "sha256:cfg");
            assert_eq!(size, 40960);
            assert_eq!(file_path, "/data/images/sha256:cfg.img");
            assert!(downloaded);
        },
        _ => panic!("the repeated build must reuse the stored image"),
    }
    // A second fetch-missing over the same digests has nothing left to do.
    let again = missing_layers(&strings(vec!["l1"]), &st.layers);
    assert_eq!(again.len(), 0);
}

#[test]
fn an_explicit_output_path_forces_a_rebuild() {
    let mut st = ApplicationState::new();
    let p = platform("linux", "amd64");
    let digest = String::from("sha256:cfg");
    apply_build_success(&mut st, "nginx", "latest", &p, &digest, strings(vec!["l1"]), 40960);
    let out = Some(String::from("/tmp/custom.img"));
    match plan_build(&st, "nginx", "latest", &p, &digest, &out, "/data/images") {
        BuildPlan::Rebuild { file_path, downloaded, .. } => {
            assert_eq!(file_path, "/tmp/custom.img");
            assert!(downloaded);
        },
        _ => panic!("a forced output path must not be served from the cache"),
    }
}

#[test]
fn missing_layers_fetches_each_absent_digest_once() {
    let wanted = strings(vec!["a", "b", "a", "c"]);
    let present = strings(vec!["b"]);
    let fetch = missing_layers(&wanted, &present);
    assert_eq!(fetch, strings(vec!["a", "c"]));
}

#[test]
fn nothing_is_missing_when_nothing_is_wanted() {
    let fetch = missing_layers(&Vec::new(), &strings(vec!["a"]));
    assert_eq!(fetch.len(), 0);
}

#[test]
fn remove_drops_only_the_images_own_bindings() {
    let mut st = ApplicationState::new();
    let p = platform("linux", "amd64");
    apply_build_success(&mut st, "nginx", "latest", &p, &String::from("d1"), strings(vec!["l1"]), 1);
    apply_build_success(&mut st, "redis", "latest", &p, &String::from("d2"), strings(vec!["l2"]), 2);
    // A second tag on the first image.
    apply_build_success(&mut st, "nginx", "stable", &p, &String::from("d1"), strings(vec!["l1"]), 1);
    let r = remove_image(&mut st, "nginx", "latest", &p, false).unwrap();
    assert_eq!(r.digest, "d1");
    assert_eq!(r.removed_layers.len(), 0);
    // Both bindings to d1 are gone, the one to d2 stays.
    assert!(st.get_stored_image_digest("nginx", "latest", &p).is_none());
    assert!(st.get_stored_image_digest("nginx", "stable", &p).is_none());
    assert_eq!(st.get_stored_image_digest("redis", "latest", &p).unwrap(), "d2");
    assert_eq!(st.images.len(), 1);
    // Without pruning the layer set is untouched.
    assert!(st.has_layer(&String::from("l1")));
}

#[test]
fn remove_of_an_unknown_image_is_not_found() {
    let mut st = ApplicationState::new();
    let p = platform("linux", "amd64");
    assert!(matches!(
        remove_image(&mut st, "ghost", "latest", &p, true),
        Err(Error::NotFound)
    ));
    assert_eq!(st.images.len(), 0);
}

#[test]
fn prune_on_remove_spares_a_layer_another_image_shares() {
    let mut st = ApplicationState::new();
    let p = platform("linux", "amd64");
    apply_build_success(
        &mut st,
        "nginx",
        "latest",
        &p,
        &String::from("d1"),
        strings(vec!["shared", "own"]),
        1,
    );
    apply_build_success(
        &mut st,
        "redis",
        "latest",
        &p,
        &String::from("d2"),
        strings(vec!["shared"]),
        2,
    );
    let r = remove_image(&mut st, "nginx", "latest", &p, true).unwrap();
    // The shared layer is absent from what was removed; the image's own
    // layer is exactly what leaves.
    assert_eq!(r.removed_layers, strings(vec!["own"]));
    assert!(st.has_layer(&String::from("shared")));
    assert!(!st.has_layer(&String::from("own")));
}

#[test]
fn prune_removes_exactly_the_unreferenced_layers() {
    let mut st = ApplicationState::new();
    let p = platform("linux", "amd64");
    apply_build_success(&mut st, "nginx", "latest", &p, &String::from("d1"), strings(vec!["l1"]), 1);
    st.add_layer(String::from("orphan1"));
    st.add_layer(String::from("orphan2"));
    let r = prune(&mut st);
    assert_eq!(r.layers, strings(vec!["orphan1", "orphan2"]));
    assert!(st.has_layer(&String::from("l1")));
    assert!(!st.has_layer(&String::from("orphan1")));
    // Pruning again finds nothing.
    let r2 = prune(&mut st);
    assert_eq!(r2.layers.len(), 0);
}

#[test]
fn listing_hands_out_the_stored_images() {
    let mut st = ApplicationState::new();
    let p = platform("linux", "amd64");
    apply_build_success(&mut st, "nginx", "latest", &p, &String::from("d1"), strings(vec!["l1"]), 7);
    let r = list_images(&st);
    assert_eq!(r.images.len(), 1);
    assert_eq!(r.images[0].0, "d1");
    assert_eq!(r.images[0].1.name, "nginx");
    assert_eq!(r.images[0].1.size, 7);
}

#[test]
fn manifest_selection_matches_the_platform() {
    let manifests = Manifests {
        manifests: Some(vec![
            Manifest { digest: String::from("m-arm"), platform: platform("linux", "arm64") },
            Manifest { digest: String::from("m-amd"), platform: platform("linux", "amd64") },
        ]),
        errors: None,
    };
    let hit = manifests.get_manifest_for_platform(&platform("linux", "amd64")).unwrap();
    assert_eq!(hit.digest, "m-amd");
    assert!(manifests.get_manifest_for_platform(&platform("windows", "amd64")).is_none());
    assert!(manifests.validated().is_ok());
}

#[test]
fn the_first_matching_manifest_wins() {
    let manifests = Manifests {
        manifests: Some(vec![
            Manifest { digest: String::from("m-one"), platform: platform("linux", "amd64") },
            Manifest { digest: String::from("m-two"), platform: platform("linux", "amd64") },
        ]),
        errors: None,
    };
    let hit = manifests.get_manifest_for_platform(&platform("linux", "amd64")).unwrap();
    assert_eq!(hit.digest, "m-one");
}

#[test]
fn registry_errors_surface_with_their_first_message() {
    let answer = Manifests {
        manifests: None,
        errors: Some(vec![ManifestsError {
            code: String::from("DENIED"),
            message: String::from("access denied"),
            detail: Vec::new(),
        }]),
    };
    assert!(answer.get_manifest_for_platform(&platform("linux", "amd64")).is_none());
    match answer.validated() {
        Err(Error::RemoteError(m)) => assert_eq!(m, "access denied"),
        _ => panic!("the registry error must surface"),
    }
    let empty_errors = Manifests { manifests: None, errors: Some(Vec::new()) };
    match empty_errors.validated() {
        Err(Error::RemoteError(m)) => assert_eq!(m, "errors present but empty"),
        _ => panic!("an empty error list is still an error"),
    }
}

#[test]
fn bootloader_label_is_required() {
    let mut cfg = ImageConfig {
        architecture: String::from("amd64"),
        config: Config {
            env: Vec::new(),
            entrypoint: Vec::new(),
            cmd: Vec::new(),
            labels: vec![(String::from("maintainer"), String::from("someone"))],
            args_escaped: false,
        },
        created: String::from("2024-01-01"),
        history: Vec::new(),
        os: String::from("linux"),
        rootfs: RootFs { fs_type: String::from("layers"), diff_ids: Vec::new() },
    };
    assert!(matches!(bootloader_path_label(&cfg), Err(Error::BootloaderPathMissing)));
    cfg.config.labels.push((
        String::from("whaledrive.bootloader.path"),
        String::from("/boot/loader.img"),
    ));
    assert_eq!(bootloader_path_label(&cfg).unwrap(), "/boot/loader.img");
    assert_eq!(
        strip_leading_separator(&String::from("/boot/loader.img")).unwrap(),
        "boot/loader.img"
    );
    assert!(matches!(
        strip_leading_separator(&String::from("boot/loader.img")),
        Err(Error::IOError(_))
    ));
}

#[test]
fn image_reference_parsing() {
    let (ns, name, tag) = parse_image_reference("nginx");
    assert_eq!((ns.as_str(), name.as_str(), tag.as_str()), ("library", "nginx", "latest"));
    let (ns, name, tag) = parse_image_reference("nginx:1.25");
    assert_eq!((ns.as_str(), name.as_str(), tag.as_str()), ("library", "nginx", "1.25"));
    let (ns, name, tag) = parse_image_reference("myorg/app:dev");
    assert_eq!((ns.as_str(), name.as_str(), tag.as_str()), ("myorg", "app", "dev"));
    let (ns, name, tag) = parse_image_reference("myorg/app");
    assert_eq!((ns.as_str(), name.as_str(), tag.as_str()), ("myorg", "app", "latest"));
}

#[test]
fn image_arg_splits_on_a_single_colon_only() {
    let a = ImageArg::from(String::from("nginx:1.25"));
    assert_eq!((a.name.as_str(), a.tag.as_str()), ("nginx", "1.25"));
    let a = ImageArg::from(String::from("nginx"));
    assert_eq!((a.name.as_str(), a.tag.as_str()), ("nginx", "latest"));
    let a = ImageArg::from(String::from("a:b:c"));
    assert_eq!((a.name.as_str(), a.tag.as_str()), ("a:b:c", "latest"));
    assert_eq!(ImageArg::from(String::from("nginx:1.25")).to_string(), "nginx:1.25");
}

#[test]
fn paths_hang_off_the_configured_base() {
    let paths = BasePaths::new(String::from("/data"));
    assert_eq!(paths.get_app_state_path(), "/data/state.json");
    assert_eq!(paths.get_layers_path(), "/data/layers");
    assert_eq!(paths.get_layers_compressed_path(), "/data/layers_compressed");
    assert_eq!(paths.get_images_path(), "/data/images");
    assert_eq!(image_file_path("/data/images", "sha256:cfg"), "/data/images/sha256:cfg.img");
}

#[test]
fn host_command_outcomes() {
    let cmds = required_commands();
    assert_eq!(cmds, vec!["dd", "losetup", "mkfs.ext4", "mount", "sfdisk"]);
    assert_eq!(
        output_error_if_failed(true, String::from("out"), String::from("")).unwrap(),
        "out"
    );
    match output_error_if_failed(false, String::from("o"), String::from("e")) {
        Err(Error::ResourceError(m)) => assert_eq!(m, "STDOUT: o; STDERR: e"),
        _ => panic!("a failed command must carry both streams"),
    }
}
