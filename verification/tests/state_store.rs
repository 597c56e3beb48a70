use whaledrive::application_state::{ApplicationState, Image, StateHandle};
use whaledrive::commands::purge;
use whaledrive::errors::Error;
use whaledrive::models::registry_models::Platform;

fn platform(os: &str, arch: &str) -> Platform {
    Platform { architecture: String::from(arch), os: String::from(os) }
}

fn sample_image(name: &str, tag: &str, layers: Vec<&str>, size: u64) -> Image {
    Image {
        platform: platform("linux", "amd64"),
        name: String::from(name),
        tag: String::from(tag),
        layers: layers.into_iter().map(String::from).collect(),
        size,
    }
}

#[test]
fn new_state_is_empty() {
    let st = ApplicationState::new();
    assert_eq!(st.tagged_images.len(), 0);
    assert_eq!(st.images.len(), 0);
    assert_eq!(st.layers.len(), 0);
}

#[test]
fn bind_then_lookup() {
    let mut st = ApplicationState::new();
    let p = platform("linux", "amd64");
    assert!(st.get_stored_image_digest("nginx", "latest", &p).is_none());
    st.set_stored_image_digest("nginx", "latest", &p, String::from("sha256:abc"));
    assert_eq!(st.get_stored_image_digest("nginx", "latest", &p).unwrap(), "sha256:abc");
    // The binding key carries the platform: another platform sees nothing.
    let other = platform("linux", "arm64");
    assert!(st.get_stored_image_digest("nginx", "latest", &other).is_none());
    // Rebinding overwrites rather than accumulating.
    st.set_stored_image_digest("nginx", "latest", &p, String::from("sha256:def"));
    assert_eq!(st.get_stored_image_digest("nginx", "latest", &p).unwrap(), "sha256:def");
    assert_eq!(st.tagged_images.len(), 1);
    assert_eq!(st.tagged_images[0].0, "nginx:latest-linux:amd64");
}

#[test]
fn get_stored_image_composes_lookup() {
    let mut st = ApplicationState::new();
    let p = platform("linux", "amd64");
    st.set_stored_image_digest("nginx", "latest", &p, String::from("sha256:abc"));
    // A binding without a record yields nothing.
    assert!(st.get_stored_image("nginx", "latest", &p).is_none());
    st.upsert_image(String::from("sha256:abc"), sample_image("nginx", "latest", vec!["l1"], 42));
    let img = st.get_stored_image("nginx", "latest", &p).unwrap();
    assert_eq!(img.name, "nginx");
    assert_eq!(img.size, 42);
}

#[test]
fn upsert_image_first_writer_wins() {
    let mut st = ApplicationState::new();
    st.upsert_image(String::from("d1"), sample_image("a", "t", vec!["l1"], 1));
    st.upsert_image(String::from("d1"), sample_image("b", "t", vec!["l2"], 2));
    assert_eq!(st.images.len(), 1);
    assert_eq!(st.images[0].1.name, "a");
    assert_eq!(st.images[0].1.size, 1);
}

#[test]
fn remove_image_not_found() {
    let mut st = ApplicationState::new();
    let r = st.remove_image(&String::from("missing"));
    assert!(matches!(r, Err(Error::NotFound)));
    st.upsert_image(String::from("d1"), sample_image("a", "t", vec![], 1));
    assert!(st.remove_image(&String::from("d1")).is_ok());
    assert_eq!(st.images.len(), 0);
}

#[test]
fn layer_set_is_a_set() {
    let mut st = ApplicationState::new();
    assert!(!st.has_layer(&String::from("l1")));
    st.add_layer(String::from("l1"));
    st.add_layer(String::from("l1"));
    st.add_layer(String::from("l2"));
    assert!(st.has_layer(&String::from("l1")));
    assert!(st.has_layer(&String::from("l2")));
    assert_eq!(st.layers.len(), 2);
}

#[test]
fn purge_clears_everything() {
    let mut st = ApplicationState::new();
    let p = platform("linux", "amd64");
    st.set_stored_image_digest("a", "t", &p, String::from("d1"));
    st.upsert_image(String::from("d1"), sample_image("a", "t", vec!["l1"], 1));
    st.add_layer(String::from("l1"));
    purge(&mut st);
    assert_eq!(st.tagged_images.len(), 0);
    assert_eq!(st.images.len(), 0);
    assert_eq!(st.layers.len(), 0);
}

#[test]
fn state_handle_wraps_state() {
    let mut st = ApplicationState::new();
    st.add_layer(String::from("l1"));
    let handle = StateHandle::new(st);
    assert_eq!(handle.state.layers.len(), 1);
}

#[test]
fn error_messages() {
    assert_eq!(Error::NotFound.message(), "image not found");
    assert_eq!(Error::PlatformNotFound.message(), "manifest not found for platform");
    assert_eq!(Error::EmptyImage.message(), "image size must be greater than 0");
    assert_eq!(Error::FormatError.message(), "state file is malformed");
    assert_eq!(Error::BootloaderPathMissing.message(), "bootloader not found in image config");
    assert_eq!(
        Error::CommandNotFound(String::from("sfdisk")).message(),
        "required command not found: sfdisk"
    );
    assert_eq!(Error::RemoteError(String::from("denied")).message(), "registry error: denied");
    assert_eq!(
        Error::ResourceError(String::from("mount failed")).message(),
        "resource operation failed: mount failed"
    );
    assert_eq!(Error::IOError(String::from("copy")).message(), "io operation failed: copy");
}
