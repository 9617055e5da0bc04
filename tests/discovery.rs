use gecko_profiles::catalog::{browser_targets, get_all_profiles, registry_locations};
use gecko_profiles::paths::{get_base_dir, registry_path, root_variable, Platform};

fn profiles_of(platform: Platform, root: Option<&str>, texts: Vec<Option<String>>) -> Vec<(String, String, String)> {
    get_all_profiles(platform, root, &texts)
        .into_iter()
        .map(|p| (p.browser_name, p.profile_name, p.root_directory))
        .collect()
}

fn owned(a: &str, b: &str, c: &str) -> (String, String, String) {
    (a.to_string(), b.to_string(), c.to_string())
}

#[test]
fn catalog_lists_four_browsers_in_order() {
    let t = browser_targets();
    let labels: Vec<&str> = t.iter().map(|x| x.label.as_str()).collect();
    assert_eq!(labels, vec!["Firefox", "Floorp", "Zen", "LibreWolf"]);
    assert_eq!(t[0].windows_subpath, "Mozilla/Firefox");
    assert_eq!(t[2].macos_subpath, "Zen Browser");
    assert_eq!(t[3].linux_subpath, ".librewolf");
}

#[test]
fn root_variables_by_platform() {
    assert_eq!(root_variable(Platform::Windows), Some("APPDATA"));
    assert_eq!(root_variable(Platform::MacOs), Some("HOME"));
    assert_eq!(root_variable(Platform::Linux), Some("HOME"));
    assert_eq!(root_variable(Platform::Other), None);
}

#[test]
fn base_dir_on_linux_and_macos() {
    assert_eq!(
        get_base_dir(Platform::Linux, Some("/home/u"), "Mozilla/Firefox", "Firefox", ".mozilla/firefox"),
        Some("/home/u/.mozilla/firefox".to_string())
    );
    assert_eq!(
        get_base_dir(Platform::MacOs, Some("/Users/u"), "Zen", "Zen Browser", ".zen"),
        Some("/Users/u/Library/Application Support/Zen Browser".to_string())
    );
}

#[test]
fn base_dir_unknown_without_root_or_platform() {
    assert_eq!(get_base_dir(Platform::Linux, None, "w", "m", "l"), None);
    assert_eq!(get_base_dir(Platform::Windows, None, "w", "m", "l"), None);
    assert_eq!(get_base_dir(Platform::Other, Some("/home/u"), "w", "m", "l"), None);
}

#[test]
fn registry_file_is_in_base_dir() {
    assert_eq!(registry_path("/home/u/.floorp"), "/home/u/.floorp/profiles.ini");
}

#[test]
fn registry_locations_follow_catalog() {
    let locs = registry_locations(Platform::Linux, Some("/home/u"));
    assert_eq!(
        locs,
        vec![
            Some("/home/u/.mozilla/firefox/profiles.ini".to_string()),
            Some("/home/u/.floorp/profiles.ini".to_string()),
            Some("/home/u/.zen/profiles.ini".to_string()),
            Some("/home/u/.librewolf/profiles.ini".to_string()),
        ]
    );
    assert_eq!(registry_locations(Platform::Other, Some("/home/u")), vec![None, None, None, None]);
    assert_eq!(registry_locations(Platform::Linux, None), vec![None, None, None, None]);
}

#[test]
fn missing_registry_contributes_nothing() {
    let floorp = "[Profile0]\nName=main\nPath=m.main\nIsRelative=1\n".to_string();
    let wolf = "[Profile0]\nName=w\nPath=/opt/w\nIsRelative=0\n".to_string();
    let out = profiles_of(Platform::Linux, Some("/home/u"), vec![None, Some(floorp), None, Some(wolf)]);
    assert_eq!(
        out,
        vec![
            owned("Floorp", "main", "/home/u/.floorp/m.main"),
            owned("LibreWolf", "w", "/opt/w"),
        ]
    );
}

#[test]
fn catalog_order_is_kept() {
    let text = |n: &str| Some(format!("[Profile0]\nName={}\nPath=p\nIsRelative=1\n", n));
    let out = profiles_of(Platform::Linux, Some("/h"), vec![text("a"), text("b"), text("c"), text("d")]);
    assert_eq!(
        out,
        vec![
            owned("Firefox", "a", "/h/.mozilla/firefox/p"),
            owned("Floorp", "b", "/h/.floorp/p"),
            owned("Zen", "c", "/h/.zen/p"),
            owned("LibreWolf", "d", "/h/.librewolf/p"),
        ]
    );
}

#[test]
fn no_root_or_platform_finds_nothing() {
    let text = Some("[Profile0]\nName=a\nPath=/p\n".to_string());
    assert!(profiles_of(Platform::Linux, None, vec![text.clone(), None, None, None]).is_empty());
    assert!(profiles_of(Platform::Other, Some("/h"), vec![text, None, None, None]).is_empty());
}

#[test]
fn short_registry_list_treats_rest_as_missing() {
    let text = Some("[Profile0]\nName=a\nPath=/p\n".to_string());
    let out = profiles_of(Platform::MacOs, Some("/Users/u"), vec![text]);
    assert_eq!(out, vec![owned("Firefox", "a", "/p")]);
    assert!(profiles_of(Platform::Linux, Some("/h"), vec![]).is_empty());
}

#[test]
fn discovery_twice_gives_same_output() {
    let texts = vec![
        Some("[Profile0]\nName=a\nPath=x\nIsRelative=1\n[Profile1]\nName=b\nPath=/y\n".to_string()),
        None,
        Some("Name=z\nPath=/z\n".to_string()),
        None,
    ];
    let first = profiles_of(Platform::Linux, Some("/h"), texts.clone());
    let second = profiles_of(Platform::Linux, Some("/h"), texts);
    assert_eq!(first, second);
    assert_eq!(first.len(), 3);
}
