use whaledrive::application_state::{ApplicationState, Image};
use whaledrive::errors::Error;
use whaledrive::models::registry_models::Platform;
use whaledrive::state_codec::{encode_state, parse_state};

fn sample_state() -> ApplicationState {
    let mut st = ApplicationState::new();
    let p = Platform { architecture: String::from("amd64"), os: String::from("linux") };
    st.set_stored_image_digest("nginx", "latest", &p, String::from("sha256:abc"));
    st.upsert_image(
        String::from("sha256:abc"),
        Image {
            platform: Platform { architecture: String::from("amd64"), os: String::from("linux") },
            name: String::from("nginx"),
            tag: String::from("latest"),
            layers: vec![String::from("l1"), String::from("l2")],
            size: 12288,
        },
    );
    st.add_layer(String::from("l1"));
    st.add_layer(String::from("l2"));
    st
}

#[test]
fn encode_writes_the_fixed_document_shape() {
    let st = sample_state();
    let mut expected = String::from("{\"tagged_images\":{\"nginx:latest-linux:amd64\":\"sha256:abc\"},");
    expected.push_str("\"images\":{\"sha256:abc\":{\"platform\":{\"architecture\":\"amd64\",\"os\":\"linux\"},");
    expected.push_str("\"name\":\"nginx\",\"tag\":\"latest\",\"layers\":[\"l1\",\"l2\"],\"size\":12288}},");
    expected.push_str("\"layers\":[\"l1\",\"l2\"]}");
    assert_eq!(encode_state(&st), expected);
}

#[test]
fn encode_empty_state() {
    let st = ApplicationState::new();
    assert_eq!(encode_state(&st), "{\"tagged_images\":{},\"images\":{},\"layers\":[]}");
}

#[test]
fn persist_then_reload_is_identity() {
    let st = sample_state();
    let text = encode_state(&st);
    let loaded = parse_state(text.as_str()).unwrap();
    assert_eq!(loaded.tagged_images, st.tagged_images);
    assert_eq!(loaded.layers, st.layers);
    assert_eq!(loaded.images.len(), st.images.len());
    for (a, b) in loaded.images.iter().zip(st.images.iter()) {
        assert_eq!(a.0, b.0);
        assert_eq!(a.1.name, b.1.name);
        assert_eq!(a.1.tag, b.1.tag);
        assert_eq!(a.1.platform.os, b.1.platform.os);
        assert_eq!(a.1.platform.architecture, b.1.platform.architecture);
        assert_eq!(a.1.layers, b.1.layers);
        assert_eq!(a.1.size, b.1.size);
    }
}

#[test]
fn persist_then_reload_empty_state() {
    let st = ApplicationState::new();
    let loaded = parse_state(encode_state(&st).as_str()).unwrap();
    assert_eq!(loaded.tagged_images.len(), 0);
    assert_eq!(loaded.images.len(), 0);
    assert_eq!(loaded.layers.len(), 0);
}

#[test]
fn quotes_and_backslashes_survive_the_round_trip() {
    let mut st = ApplicationState::new();
    st.add_layer(String::from("we\"ird\\digest"));
    let text = encode_state(&st);
    assert_eq!(text, "{\"tagged_images\":{},\"images\":{},\"layers\":[\"we\\\"ird\\\\digest\"]}");
    let loaded = parse_state(text.as_str()).unwrap();
    assert_eq!(loaded.layers, vec![String::from("we\"ird\\digest")]);
}

#[test]
fn the_largest_size_survives_the_round_trip() {
    let mut st = ApplicationState::new();
    st.upsert_image(
        String::from("d"),
        Image {
            platform: Platform { architecture: String::from("amd64"), os: String::from("linux") },
            name: String::from("n"),
            tag: String::from("t"),
            layers: Vec::new(),
            size: u64::MAX,
        },
    );
    let text = encode_state(&st);
    assert!(text.contains("\"size\":18446744073709551615"));
    let loaded = parse_state(text.as_str()).unwrap();
    assert_eq!(loaded.images[0].1.size, u64::MAX);
    // One more is too much.
    let over = text.replace("18446744073709551615", "18446744073709551616");
    assert!(matches!(parse_state(over.as_str()), Err(Error::FormatError)));
}

#[test]
fn malformed_documents_are_format_errors() {
    assert!(matches!(parse_state(""), Err(Error::FormatError)));
    assert!(matches!(parse_state("{}"), Err(Error::FormatError)));
    assert!(matches!(
        parse_state("{\"tagged_images\":{},\"images\":{},\"layers\":[]"),
        Err(Error::FormatError)
    ));
    // Trailing text after the document is refused too.
    assert!(matches!(
        parse_state("{\"tagged_images\":{},\"images\":{},\"layers\":[]} "),
        Err(Error::FormatError)
    ));
    // An unclosed string.
    assert!(matches!(
        parse_state("{\"tagged_images\":{\"a"),
        Err(Error::FormatError)
    ));
}

#[test]
fn escaped_binding_keys_survive_the_round_trip() {
    let mut st = ApplicationState::new();
    let p = Platform { architecture: String::from("amd64"), os: String::from("linux") };
    st.set_stored_image_digest("we\"ird", "ta\\g", &p, String::from("d1"));
    st.upsert_image(
        String::from("d1"),
        Image {
            platform: Platform { architecture: String::from("amd64"), os: String::from("linux") },
            name: String::from("we\"ird"),
            tag: String::from("ta\\g"),
            layers: Vec::new(),
            size: 1,
        },
    );
    let loaded = parse_state(encode_state(&st).as_str()).unwrap();
    assert_eq!(loaded.tagged_images, st.tagged_images);
    assert_eq!(loaded.images[0].1.name, "we\"ird");
    assert_eq!(loaded.images[0].1.tag, "ta\\g");
}

#[test]
fn duplicate_keys_are_format_errors() {
    let text = "{\"tagged_images\":{\"k\":\"a\",\"k\":\"b\"},\"images\":{},\"layers\":[]}";
    assert!(matches!(parse_state(text), Err(Error::FormatError)));
    let text2 = "{\"tagged_images\":{},\"images\":{},\"layers\":[\"l\",\"l\"]}";
    assert!(matches!(parse_state(text2), Err(Error::FormatError)));
}

#[test]
fn oversized_numbers_are_format_errors() {
    let mut text = String::from("{\"tagged_images\":{},\"images\":{\"d\":{\"platform\":");
    text.push_str("{\"architecture\":\"amd64\",\"os\":\"linux\"},\"name\":\"n\",\"tag\":\"t\",");
    text.push_str("\"layers\":[],\"size\":99999999999999999999999}},\"layers\":[]}");
    assert!(matches!(parse_state(text.as_str()), Err(Error::FormatError)));
}
