//! Base directories of the browsers and the location of their registries.

use vstd::prelude::*;

verus! {

/// What joining `rest` onto the path `base` gives, as text, with the separator
/// rules of the platform the library is built for.
pub uninterp spec fn joined(base: Seq<char>, rest: Seq<char>) -> Seq<char>;

/// Relies on `std::path::Path::join` followed by `to_string_lossy`: the result is
/// a function of the two paths, and it is empty only where `rest` is (an absolute
/// `rest` replaces `base`, a relative one extends it).
#[verifier::external_body]
pub(crate) fn join_path(base: &str, rest: &str) -> (r: String)
    ensures
        r@ == joined(base@, rest@),
        rest@.len() > 0 ==> r@.len() > 0,
{
    std::path::Path::new(base).join(rest).to_string_lossy().into_owned()
}

/// The platform families whose browsers keep their data in a known place.
#[derive(Clone, Copy, Debug, PartialEq, Eq, Structural)]
pub enum Platform {
    Windows,
    MacOs,
    Linux,
    Other,
}

pub open spec fn opt_str(o: Option<&str>) -> Option<Seq<char>> {
    match o {
        Some(s) => Some(s@),
        None => None,
    }
}

pub open spec fn opt_string(o: Option<String>) -> Option<Seq<char>> {
    match o {
        Some(s) => Some(s@),
        None => None,
    }
}

/// The environment variable that names the data root on `platform`, if any.
pub open spec fn root_variable_of(platform: Platform) -> Option<Seq<char>> {
    match platform {
        Platform::Windows => Some("APPDATA"@),
        Platform::MacOs => Some("HOME"@),
        Platform::Linux => Some("HOME"@),
        Platform::Other => None,
    }
}

/// The directory where a browser keeps its profiles on `platform`, given the value
/// `root` of the platform's root variable and the browser's subpath for each
/// platform.
pub open spec fn base_dir_of(
    platform: Platform,
    root: Option<Seq<char>>,
    win: Seq<char>,
    mac: Seq<char>,
    lin: Seq<char>,
) -> Option<Seq<char>> {
    match root {
        None => None,
        Some(home) => match platform {
            Platform::Windows => Some(joined(home, win)),
            Platform::MacOs => Some(joined(joined(home, "Library/Application Support"@), mac)),
            Platform::Linux => Some(joined(home, lin)),
            Platform::Other => None,
        },
    }
}

/// The registry file inside the base directory `base`.
pub open spec fn registry_file_of(base: Seq<char>) -> Seq<char> {
    joined(base, "profiles.ini"@)
}

/// The environment variable to read for the data root on `platform`.
pub fn root_variable(platform: Platform) -> (r: Option<&'static str>)
    ensures
        opt_str(r) == root_variable_of(platform),
{
    match platform {
        Platform::Windows => Some("APPDATA"),
        Platform::MacOs => Some("HOME"),
        Platform::Linux => Some("HOME"),
        Platform::Other => None,
    }
}

/// The base directory of a browser with the given subpaths; `None` where the
/// platform is unsupported or its root variable is unset.
pub fn get_base_dir(
    platform: Platform,
    root: Option<&str>,
    win: &str,
    mac: &str,
    lin: &str,
) -> (r: Option<String>)
    ensures
        opt_string(r) == base_dir_of(platform, opt_str(root), win@, mac@, lin@),
{
    match root {
        None => None,
        Some(home) => match platform {
            Platform::Windows => Some(join_path(home, win)),
            Platform::MacOs => {
                let support = join_path(home, "Library/Application Support");
                Some(join_path(support.as_str(), mac))
            },
            Platform::Linux => Some(join_path(home, lin)),
            Platform::Other => None,
        },
    }
}

/// The path of the registry file in the base directory `base`.
pub fn registry_path(base: &str) -> (r: String)
    ensures
        r@ == registry_file_of(base@),
{
    join_path(base, "profiles.ini")
}

} // verus!
