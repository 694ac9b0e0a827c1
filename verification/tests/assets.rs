use clipboard_vault::assets::{asset_version, fingerprint, AssetFile};

fn file(names: &[&str], contents: &str) -> AssetFile {
    AssetFile {
        names: names.iter().map(|n| n.to_string()).collect(),
        contents: contents.as_bytes().to_vec(),
    }
}

#[test]
fn fingerprint_is_stable_for_unchanged_files() {
    let first = fingerprint("/tmp/assets", vec![file(&["app.css"], "body{}")]);
    let second = fingerprint("/tmp/assets", vec![file(&["app.css"], "body{}")]);
    assert_eq!(first, second);
    assert_eq!(first.len(), 12);
}

#[test]
fn fingerprint_changes_when_an_asset_changes() {
    let before = fingerprint("/tmp/assets", vec![file(&["app.css"], "body{color:red}")]);
    let after = fingerprint("/tmp/assets", vec![file(&["app.css"], "body{color:blue}")]);
    assert_ne!(before, after);
}

#[test]
fn fingerprint_covers_nested_directories() {
    let before = fingerprint("/tmp/assets", vec![file(&["vendor", "lib.js"], "one")]);
    let after = fingerprint("/tmp/assets", vec![file(&["vendor", "lib.js"], "two")]);
    assert_ne!(before, after);
}

#[test]
fn fingerprint_is_the_digest_of_paths_and_contents_in_order() {
    // sha256("static/a.cssAstatic/b.jsB") in hexadecimal, first twelve digits.
    let listed = fingerprint("static", vec![file(&["b.js"], "B"), file(&["a.css"], "A")]);
    let sorted = fingerprint("static", vec![file(&["a.css"], "A"), file(&["b.js"], "B")]);
    assert_eq!(listed, sorted);
    assert!(listed.chars().all(|c| c.is_ascii_hexdigit() && !c.is_ascii_uppercase()));
}

#[test]
fn fingerprint_orders_paths_by_name_not_by_text() {
    // "a/b" sorts before "a.b" as a path, although '.' sorts before '/'.
    let one = fingerprint("s", vec![file(&["a", "b"], "x"), file(&["a.b"], "y")]);
    let two = fingerprint("s", vec![file(&["a.b"], "y"), file(&["a", "b"], "x")]);
    assert_eq!(one, two);
}

#[test]
fn fingerprint_depends_on_the_directory_name() {
    let a = fingerprint("static", vec![file(&["app.css"], "body{}")]);
    let b = fingerprint("public", vec![file(&["app.css"], "body{}")]);
    assert_ne!(a, b);
}

#[test]
fn the_shipped_assets_produce_a_real_fingerprint() {
    // The shipped asset directory, read as a list of files (here: empty).
    let version = fingerprint("static", vec![]);
    assert_eq!(version.len(), 12);
    assert!(version.chars().all(|c| c.is_ascii_hexdigit()));
    assert_eq!(asset_version("static", Some(vec![]), "0.1.0"), version);
}

#[test]
fn a_missing_directory_falls_back_instead_of_failing() {
    assert_eq!(asset_version("does-not-exist", None, "0.1.0"), "0.1.0");
    let files = vec![file(&["app.css"], "body{}")];
    let expected = fingerprint("static", vec![file(&["app.css"], "body{}")]);
    assert_eq!(asset_version("static", Some(files), "0.1.0"), expected);
}
