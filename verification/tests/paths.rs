use imgconv::paths::{newfname_from_origfname, replace_extension, resolve_path, is_png, FilePath};

fn fp(rooted: bool, parts: &[&str]) -> FilePath {
    let components: Vec<Vec<u8>> = parts.iter().map(|p| p.as_bytes().to_vec()).collect();
    FilePath::new(rooted, components).expect("valid components")
}

fn parts_of(p: &FilePath) -> Vec<String> {
    p.components
        .iter()
        .map(|c| String::from_utf8(c.clone()).expect("utf8"))
        .collect()
}

#[test]
fn map_mirror_keeps_subdirectories() {
    let from = fp(true, &["in", "a", "b.png"]);
    let dest = newfname_from_origfname(&from, &fp(true, &["in"]), &fp(true, &["out"]), false)
        .expect("under the input root");
    assert!(dest.rooted);
    assert_eq!(parts_of(&dest), vec!["out", "a", "b.jpg"]);
}

#[test]
fn map_flatten_drops_subdirectories() {
    let from = fp(true, &["in", "a", "b.png"]);
    let dest = newfname_from_origfname(&from, &fp(true, &["in"]), &fp(true, &["out"]), true)
        .expect("has a file name");
    assert!(dest.rooted);
    assert_eq!(parts_of(&dest), vec!["out", "b.jpg"]);
}

#[test]
fn map_mirror_rejects_source_outside_root() {
    let from = fp(true, &["elsewhere", "b.png"]);
    let dest = newfname_from_origfname(&from, &fp(true, &["in"]), &fp(true, &["out"]), false);
    assert!(dest.is_none());
}

#[test]
fn map_flatten_rejects_empty_source() {
    let from = fp(true, &[]);
    let dest = newfname_from_origfname(&from, &fp(true, &["in"]), &fp(true, &["out"]), true);
    assert!(dest.is_none());
}

#[test]
fn map_mirror_round_trip_recovers_relative_source() {
    let input_root = fp(true, &["in"]);
    let output_root = fp(true, &["out"]);
    let from = fp(true, &["in", "a", "b.png"]);
    let dest = newfname_from_origfname(&from, &input_root, &output_root, false).expect("mapped");
    let rel_out = dest.strip_prefix(&output_root).expect("under the output root");
    let last = rel_out.components.len() - 1;
    let swapped_back = replace_extension(&rel_out.components[last], &b"png".to_vec());
    let rel_in = from.strip_prefix(&input_root).expect("under the input root");
    let mut recovered = rel_out.components.clone();
    recovered[last] = swapped_back;
    assert_eq!(recovered, rel_in.components);
}

#[test]
fn is_png_accepts_matching_extension() {
    assert!(is_png(&fp(true, &["in", "b.png"])));
    assert!(is_png(&fp(false, &["b.tar.png"])));
}

#[test]
fn is_png_rejects_other_names() {
    assert!(!is_png(&fp(true, &["in", "c.txt"])));
    assert!(!is_png(&fp(true, &["in", "png"])));
    assert!(!is_png(&fp(true, &["in", ".png"])));
    assert!(!is_png(&fp(true, &["in", "b.PNG"])));
    assert!(!is_png(&fp(true, &[])));
}

#[test]
fn replace_extension_swaps_after_last_dot() {
    assert_eq!(replace_extension(&b"b.png".to_vec(), &b"jpg".to_vec()), b"b.jpg".to_vec());
    assert_eq!(replace_extension(&b"b.tar.png".to_vec(), &b"jpg".to_vec()), b"b.tar.jpg".to_vec());
}

#[test]
fn replace_extension_appends_when_missing() {
    assert_eq!(replace_extension(&b"noext".to_vec(), &b"jpg".to_vec()), b"noext.jpg".to_vec());
    assert_eq!(replace_extension(&b".png".to_vec(), &b"jpg".to_vec()), b".png.jpg".to_vec());
}

#[test]
fn resolve_path_keeps_rooted_path() {
    let r = resolve_path(&fp(true, &["data", "pics"]), &fp(true, &["home", "me"]));
    assert!(r.rooted);
    assert_eq!(parts_of(&r), vec!["data", "pics"]);
}

#[test]
fn resolve_path_joins_relative_onto_home() {
    let r = resolve_path(&fp(false, &["pics"]), &fp(true, &["home", "me"]));
    assert!(r.rooted);
    assert_eq!(parts_of(&r), vec!["home", "me", "pics"]);
}

#[test]
fn parent_and_file_name() {
    let p = fp(true, &["out", "a", "b.jpg"]);
    assert_eq!(p.file_name(), Some(b"b.jpg".to_vec()));
    let parent = p.parent().expect("has a parent");
    assert_eq!(parts_of(&parent), vec!["out", "a"]);
    assert!(fp(true, &[]).parent().is_none());
    assert!(fp(true, &[]).file_name().is_none());
}

#[test]
fn new_rejects_invalid_components() {
    assert!(FilePath::new(true, vec![b"".to_vec()]).is_none());
    assert!(FilePath::new(true, vec![b"a/b".to_vec()]).is_none());
    assert!(FilePath::new(true, vec![b"ok".to_vec()]).is_some());
}
