//! The catalog of browsers and the discovery of all their profiles.

use vstd::prelude::*;
use crate::paths::{
    base_dir_of, get_base_dir, opt_str, opt_string, registry_file_of, registry_path, Platform,
};
use crate::registry::{all_filled, parse_ini_content, parsed, views, BrowserProfile, ProfileView};

verus! {

/// A browser: its label and where it keeps its data below the platform root, on
/// each platform.
pub struct BrowserTarget {
    pub label: String,
    pub windows_subpath: String,
    pub macos_subpath: String,
    pub linux_subpath: String,
}

pub struct TargetView {
    pub label: Seq<char>,
    pub windows_subpath: Seq<char>,
    pub macos_subpath: Seq<char>,
    pub linux_subpath: Seq<char>,
}

impl View for BrowserTarget {
    type V = TargetView;

    open spec fn view(&self) -> TargetView {
        TargetView {
            label: self.label@,
            windows_subpath: self.windows_subpath@,
            macos_subpath: self.macos_subpath@,
            linux_subpath: self.linux_subpath@,
        }
    }
}

pub open spec fn target_of(
    label: Seq<char>,
    win: Seq<char>,
    mac: Seq<char>,
    lin: Seq<char>,
) -> TargetView {
    TargetView { label, windows_subpath: win, macos_subpath: mac, linux_subpath: lin }
}

/// The browsers searched, in order.
pub open spec fn catalog() -> Seq<TargetView> {
    seq![
        target_of("Firefox"@, "Mozilla/Firefox"@, "Firefox"@, ".mozilla/firefox"@),
        target_of("Floorp"@, "Floorp"@, "Floorp"@, ".floorp"@),
        target_of("Zen"@, "Zen"@, "Zen Browser"@, ".zen"@),
        target_of("LibreWolf"@, "LibreWolf"@, "LibreWolf"@, ".librewolf"@),
    ]
}

pub open spec fn target_base_dir(t: TargetView, platform: Platform, root: Option<Seq<char>>) -> Option<
    Seq<char>,
> {
    base_dir_of(platform, root, t.windows_subpath, t.macos_subpath, t.linux_subpath)
}

/// The text given for the `i`-th browser; `None` past the end of `texts`.
pub open spec fn text_at(texts: Seq<Option<Seq<char>>>, i: int) -> Option<Seq<char>> {
    if 0 <= i < texts.len() {
        texts[i]
    } else {
        None
    }
}

/// The profiles of one browser: none where its base directory is unknown or its
/// registry could not be read, else those its registry lists.
pub open spec fn target_profiles(
    t: TargetView,
    platform: Platform,
    root: Option<Seq<char>>,
    text: Option<Seq<char>>,
) -> Seq<ProfileView> {
    match (target_base_dir(t, platform, root), text) {
        (Some(base), Some(content)) => parsed(content, base, t.label),
        _ => Seq::empty(),
    }
}

/// The profiles of the first `n` browsers of the catalog, in catalog order.
pub open spec fn found(
    platform: Platform,
    root: Option<Seq<char>>,
    texts: Seq<Option<Seq<char>>>,
    n: nat,
) -> Seq<ProfileView>
    decreases n,
{
    if n == 0 {
        Seq::empty()
    } else {
        found(platform, root, texts, (n - 1) as nat) + target_profiles(
            catalog()[n - 1],
            platform,
            root,
            text_at(texts, n - 1),
        )
    }
}

/// The profiles of every browser of the catalog.
pub open spec fn discovered(
    platform: Platform,
    root: Option<Seq<char>>,
    texts: Seq<Option<Seq<char>>>,
) -> Seq<ProfileView> {
    found(platform, root, texts, catalog().len())
}

pub open spec fn opt_strings(v: Seq<Option<String>>) -> Seq<Option<Seq<char>>> {
    v.map_values(|o: Option<String>| opt_string(o))
}

fn target(label: &str, win: &str, mac: &str, lin: &str) -> (r: BrowserTarget)
    ensures
        r@ == target_of(label@, win@, mac@, lin@),
{
    BrowserTarget {
        label: String::from_str(label),
        windows_subpath: String::from_str(win),
        macos_subpath: String::from_str(mac),
        linux_subpath: String::from_str(lin),
    }
}

/// The browsers searched, in order.
pub fn browser_targets() -> (r: Vec<BrowserTarget>)
    ensures
        r@.map_values(|t: BrowserTarget| t@) == catalog(),
{
    let mut r: Vec<BrowserTarget> = Vec::new();
    r.push(target("Firefox", "Mozilla/Firefox", "Firefox", ".mozilla/firefox"));
    r.push(target("Floorp", "Floorp", "Floorp", ".floorp"));
    r.push(target("Zen", "Zen", "Zen Browser", ".zen"));
    r.push(target("LibreWolf", "LibreWolf", "LibreWolf", ".librewolf"));
    assert(r@.map_values(|t: BrowserTarget| t@) =~= catalog());
    r
}

/// Discovery depends on nothing but the platform, the value of its root variable
/// and the registry texts: two runs over the same environment and files yield
/// the same profiles in the same order.
pub proof fn lemma_discovery_repeatable(
    platform: Platform,
    root: Option<Seq<char>>,
    texts: Seq<Option<Seq<char>>>,
    first: Seq<BrowserProfile>,
    second: Seq<BrowserProfile>,
)
    requires
        views(first) == discovered(platform, root, texts),
        views(second) == discovered(platform, root, texts),
    ensures
        views(first) == views(second),
{
}

/// Where the registry file of each browser of the catalog lies on `platform`,
/// given the value `root` of the platform's root variable; `None` for a browser
/// whose base directory is unknown.
pub fn registry_locations(platform: Platform, root: Option<&str>) -> (r: Vec<Option<String>>)
    ensures
        r@.len() == catalog().len(),
        forall|i: int|
            0 <= i < r@.len() ==> opt_string(#[trigger] r@[i]) == match target_base_dir(
                catalog()[i],
                platform,
                opt_str(root),
            ) {
                Some(base) => Some(registry_file_of(base)),
                None => None,
            },
{
    let targets = browser_targets();
    let mut r: Vec<Option<String>> = Vec::new();
    for t in it: targets.iter()
        invariant
            targets@.map_values(|t: BrowserTarget| t@) == catalog(),
            it.seq() == targets@.map(|i, t: BrowserTarget| &t),
            r@.len() == it.index(),
            forall|i: int|
                0 <= i < r@.len() ==> opt_string(#[trigger] r@[i]) == match target_base_dir(
                    catalog()[i],
                    platform,
                    opt_str(root),
                ) {
                    Some(base) => Some(registry_file_of(base)),
                    None => None,
                },
    {
        let ghost i = it.index() as int;
        assert(t@ == catalog()[i]);
        let base = get_base_dir(
            platform,
            root,
            t.windows_subpath.as_str(),
            t.macos_subpath.as_str(),
            t.linux_subpath.as_str(),
        );
        let file = match base {
            Some(b) => Some(registry_path(b.as_str())),
            None => None,
        };
        r.push(file);
    }
    r
}

/// Every profile of every browser of the catalog, in catalog order. `registries[i]`
/// holds the text of the registry of the `i`-th browser, or `None` where it is
/// missing or could not be read; `root` is the value of the platform's root
/// variable, if set.
pub fn get_all_profiles(
    platform: Platform,
    root: Option<&str>,
    registries: &Vec<Option<String>>,
) -> (r: Vec<BrowserProfile>)
    ensures
        views(r@) == discovered(platform, opt_str(root), opt_strings(registries@)),
        all_filled(views(r@)),
{
    let targets = browser_targets();
    let ghost texts = opt_strings(registries@);
    let mut all: Vec<BrowserProfile> = Vec::new();
    assert(views(all@) =~= Seq::<ProfileView>::empty());
    let mut i: usize = 0;
    while i < targets.len()
        invariant
            targets@.map_values(|t: BrowserTarget| t@) == catalog(),
            i <= targets@.len(),
            texts == opt_strings(registries@),
            views(all@) == found(platform, opt_str(root), texts, i as nat),
            all_filled(views(all@)),
        decreases targets.len() - i,
    {
        let t = &targets[i];
        assert(t@ == catalog()[i as int]);
        let base = get_base_dir(
            platform,
            root,
            t.windows_subpath.as_str(),
            t.macos_subpath.as_str(),
            t.linux_subpath.as_str(),
        );
        if let Some(b) = base {
            if i < registries.len() {
                if let Some(content) = &registries[i] {
                    assert(text_at(texts, i as int) == Some(content@));
                    parse_ini_content(content.as_str(), b.as_str(), t.label.as_str(), &mut all);
                } else {
                    assert(views(all@) =~= views(all@) + Seq::empty());
                }
            } else {
                assert(views(all@) =~= views(all@) + Seq::empty());
            }
        } else {
            assert(views(all@) =~= views(all@) + Seq::empty());
        }
        i = i + 1;
    }
    all
}

} // verus!
