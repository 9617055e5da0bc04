use gecko_profiles::registry::{parse_ini_content, push_to_results, BrowserProfile};

fn parse(content: &str, base: &str, label: &str) -> Vec<BrowserProfile> {
    let mut out = Vec::new();
    parse_ini_content(content, base, label, &mut out);
    out
}

fn triple(p: &BrowserProfile) -> (&str, &str, &str) {
    (p.browser_name.as_str(), p.profile_name.as_str(), p.root_directory.as_str())
}

#[test]
fn relative_profile_is_joined_to_base() {
    let out = parse(
        "[Profile0]\nName=default\nPath=abc.default\nIsRelative=1\n",
        "/home/u/.mozilla/firefox",
        "Firefox",
    );
    assert_eq!(out.len(), 1);
    assert_eq!(triple(&out[0]), ("Firefox", "default", "/home/u/.mozilla/firefox/abc.default"));
}

#[test]
fn empty_name_drops_section() {
    let out = parse("[Profile0]\nName=\nPath=x\n", "/base", "Firefox");
    assert!(out.is_empty());
}

#[test]
fn empty_path_drops_section() {
    let out = parse("[Profile0]\nName=a\nPath=\n", "/base", "Firefox");
    assert!(out.is_empty());
}

#[test]
fn keys_before_first_section_form_a_record() {
    let out = parse(
        "Name=orphan\nPath=/abs/path\nIsRelative=0\n[Profile0]\nName=second\nPath=rel\nIsRelative=1\n",
        "/base",
        "Zen",
    );
    assert_eq!(out.len(), 2);
    assert_eq!(triple(&out[0]), ("Zen", "orphan", "/abs/path"));
    assert_eq!(triple(&out[1]), ("Zen", "second", "/base/rel"));
}

#[test]
fn is_relative_without_one_is_absolute() {
    let zero = parse("[Profile0]\nName=a\nPath=p\nIsRelative=0\n", "/base", "F");
    assert_eq!(triple(&zero[0]), ("F", "a", "p"));
    let empty = parse("[Profile0]\nName=a\nPath=p\nIsRelative=\n", "/base", "F");
    assert_eq!(triple(&empty[0]), ("F", "a", "p"));
    let absent = parse("[Profile0]\nName=a\nPath=p\n", "/base", "F");
    assert_eq!(triple(&absent[0]), ("F", "a", "p"));
}

#[test]
fn is_relative_with_any_one_is_relative() {
    let out = parse("[Profile0]\nName=a\nPath=p\nIsRelative=100\n", "/base", "F");
    assert_eq!(triple(&out[0]), ("F", "a", "/base/p"));
}

#[test]
fn empty_text_yields_nothing() {
    assert!(parse("", "/base", "F").is_empty());
    assert!(parse("[General]\nStartWithLastProfile=1\n\n", "/base", "F").is_empty());
}

#[test]
fn sections_keep_their_order_and_reset_state() {
    let out = parse(
        "[General]\nVersion=2\n\n[Profile1]\nName=one\nIsRelative=1\nPath=p1\n\n[Profile0]\nName=two\nPath=/abs/two\n[Profile2]\nPath=orphan-path\n",
        "/b",
        "Floorp",
    );
    assert_eq!(out.len(), 2);
    assert_eq!(triple(&out[0]), ("Floorp", "one", "/b/p1"));
    assert_eq!(triple(&out[1]), ("Floorp", "two", "/abs/two"));
}

#[test]
fn lines_are_trimmed_and_crlf_accepted() {
    let out = parse("  [Profile0]\r\n\tName=work \r\nPath=w.work\r\nIsRelative=1\r\n", "/b", "F");
    assert_eq!(out.len(), 1);
    assert_eq!(triple(&out[0]), ("F", "work", "/b/w.work"));
}

#[test]
fn value_keeps_text_after_prefix() {
    let out = parse("[Profile0]\nName= Name=x\nPath=/p\n", "/b", "F");
    assert_eq!(triple(&out[0]), ("F", " Name=x", "/p"));
}

#[test]
fn last_key_wins_within_a_section() {
    let out = parse("[Profile0]\nName=a\nName=b\nPath=/p\nIsRelative=1\nIsRelative=0\n", "/b", "F");
    assert_eq!(triple(&out[0]), ("F", "b", "/p"));
}

#[test]
fn results_are_appended() {
    let mut out = Vec::new();
    parse_ini_content("[Profile0]\nName=a\nPath=/p\n", "/b", "F", &mut out);
    parse_ini_content("[Profile0]\nName=b\nPath=/q\n", "/c", "G", &mut out);
    assert_eq!(out.len(), 2);
    assert_eq!(triple(&out[0]), ("F", "a", "/p"));
    assert_eq!(triple(&out[1]), ("G", "b", "/q"));
}

#[test]
fn count_is_bounded_by_sections_plus_one() {
    let content = "Name=a\nPath=/a\n[Profile0]\nName=b\nPath=/b\n[Profile1]\nName=c\nPath=c\nIsRelative=1\n";
    let out = parse(content, "/base", "F");
    let markers = content.lines().filter(|l| l.trim().starts_with("[Profile")).count();
    assert!(out.len() <= markers + 1);
    assert_eq!(out.len(), 3);
    for p in &out {
        assert!(!p.profile_name.is_empty());
        assert!(!p.root_directory.is_empty());
    }
}

#[test]
fn absolute_record_round_trips() {
    let first = parse("[Profile3]\nName=dev\nPath=/srv/profiles/dev\nIsRelative=0\n", "/base", "F");
    let p = &first[0];
    let text = format!(
        "[Profile0]\nName={}\nPath={}\nIsRelative=0\n",
        p.profile_name, p.root_directory
    );
    let again = parse(&text, "/elsewhere", "F");
    assert_eq!(again.len(), 1);
    assert_eq!(again[0].root_directory, p.root_directory);
    assert_eq!(again[0].profile_name, p.profile_name);
}

#[test]
fn push_keeps_only_complete_records() {
    let mut list = Vec::new();
    push_to_results(&mut list, "", "/p", false, "/b", "F");
    push_to_results(&mut list, "n", "", true, "/b", "F");
    assert!(list.is_empty());
    push_to_results(&mut list, "n", "rel", true, "/b", "F");
    push_to_results(&mut list, "m", "/abs", false, "/b", "F");
    assert_eq!(list.len(), 2);
    assert_eq!(triple(&list[0]), ("F", "n", "/b/rel"));
    assert_eq!(triple(&list[1]), ("F", "m", "/abs"));
}

#[test]
fn relative_absolute_path_replaces_base() {
    let out = parse("[Profile0]\nName=a\nPath=/abs\nIsRelative=1\n", "/base", "F");
    assert_eq!(triple(&out[0]), ("F", "a", "/abs"));
}
