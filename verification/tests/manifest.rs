use next_build::manifest::{AppBuildManifest, AppPathsManifest, BuildManifest, StringMap};

fn s(x: &str) -> String {
    x.to_string()
}

#[test]
fn new_maps_are_empty() {
    let m: StringMap<String> = StringMap::new();
    assert_eq!(m.len(), 0);
    assert!(m.get(&s("a")).is_none());
    assert!(AppBuildManifest::new().pages.get(&s("/page")).is_none());
    assert!(BuildManifest::new().root_main_files.is_empty());
    assert!(AppPathsManifest::new().node_server_app_paths.pages.get(&s("/page")).is_none());
}

#[test]
fn get_after_insert_gives_the_inserted_value() {
    let mut m: StringMap<String> = StringMap::new();
    m.insert(s("a"), s("1"));
    m.insert(s("b"), s("2"));
    assert_eq!(m.get(&s("a")), Some(&s("1")));
    assert_eq!(m.get(&s("b")), Some(&s("2")));
    assert_eq!(m.get(&s("c")), None);
    assert_eq!(m.len(), 2);
}

#[test]
fn insert_under_a_present_key_replaces_in_place() {
    let mut m: StringMap<Vec<String>> = StringMap::new();
    m.insert(s("x"), vec![s("1")]);
    m.insert(s("y"), vec![s("2")]);
    m.insert(s("x"), vec![s("3"), s("4")]);
    assert_eq!(m.len(), 2);
    assert_eq!(m.keys(), &vec![s("x"), s("y")]);
    assert_eq!(m.get(&s("x")), Some(&vec![s("3"), s("4")]));
    assert_eq!(m.value_at(0), &vec![s("3"), s("4")]);
    assert_eq!(m.value_at(1), &vec![s("2")]);
}

#[test]
fn new_keys_go_last() {
    let mut m: StringMap<String> = StringMap::new();
    m.insert(s("z"), s("1"));
    m.insert(s("a"), s("2"));
    m.insert(s("m"), s("3"));
    assert_eq!(m.keys(), &vec![s("z"), s("a"), s("m")]);
}
