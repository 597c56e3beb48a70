use whaledrive::overlay::{apply_layers, LayerArchive};

fn layer(entries: Vec<(&str, &[u8])>) -> LayerArchive {
    LayerArchive {
        entries: entries.into_iter().map(|(p, d)| (String::from(p), d.to_vec())).collect(),
    }
}

fn lookup<'a>(staged: &'a [(String, Vec<u8>)], path: &str) -> Option<&'a Vec<u8>> {
    staged.iter().find(|(p, _)| p == path).map(|(_, d)| d)
}

#[test]
fn later_layer_overwrites_earlier_one() {
    let a = layer(vec![("/x", b"1")]);
    let b = layer(vec![("/x", b"2")]);
    let staged = apply_layers(&vec![a, b]);
    assert_eq!(staged.len(), 1);
    assert_eq!(lookup(&staged, "/x").unwrap(), &b"2".to_vec());
}

#[test]
fn reversing_the_order_changes_the_result() {
    let a = layer(vec![("/x", b"1")]);
    let b = layer(vec![("/x", b"2")]);
    let forward = apply_layers(&vec![
        layer(vec![("/x", b"1")]),
        layer(vec![("/x", b"2")]),
    ]);
    let backward = apply_layers(&vec![b, a]);
    assert_eq!(lookup(&forward, "/x").unwrap(), &b"2".to_vec());
    assert_eq!(lookup(&backward, "/x").unwrap(), &b"1".to_vec());
    assert_ne!(lookup(&forward, "/x"), lookup(&backward, "/x"));
}

#[test]
fn directories_merge_and_distinct_paths_survive() {
    let a = layer(vec![("/etc/a", b"aa"), ("/bin/sh", b"shell")]);
    let b = layer(vec![("/etc/b", b"bb")]);
    let staged = apply_layers(&vec![a, b]);
    assert_eq!(staged.len(), 3);
    assert_eq!(lookup(&staged, "/etc/a").unwrap(), &b"aa".to_vec());
    assert_eq!(lookup(&staged, "/etc/b").unwrap(), &b"bb".to_vec());
    assert_eq!(lookup(&staged, "/bin/sh").unwrap(), &b"shell".to_vec());
}

#[test]
fn writes_inside_one_layer_apply_in_archive_order() {
    let a = layer(vec![("/x", b"first"), ("/x", b"second")]);
    let staged = apply_layers(&vec![a]);
    assert_eq!(staged.len(), 1);
    assert_eq!(lookup(&staged, "/x").unwrap(), &b"second".to_vec());
}

#[test]
fn empty_stack_stages_nothing() {
    let staged = apply_layers(&Vec::new());
    assert_eq!(staged.len(), 0);
}
