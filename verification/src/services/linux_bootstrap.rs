//! The first-run install on Linux: which Wabbajack list to install, read
//! from the gallery metadata, and how Fluorine is opened afterwards. The
//! caller downloads the metadata and runs CLF3 and Fluorine.
use vstd::prelude::*;
use crate::services::fluorine::Fluorine;
use crate::services::game_launcher::opt_view;
use crate::text::{push_str, string_of, strs, trim, trimmed_str};

verus! {

/// The gallery metadata of the modlist; each release changes its download link.
pub const MODLIST_JSON_URL: &'static str =
    "https://raw.githubusercontent.com/NomadsReach/Fallout-Anomaly/master/modlist.json";

/// What the launcher needs of the modlist's gallery entry.
#[derive(Debug, Clone)]
pub struct ModlistMetadata {
    pub title: String,
    pub version: String,
    pub download_url: String,
    pub machine_url: Option<String>,
    pub archives_size: Option<u64>,
    pub installed_size: Option<u64>,
}

/// The fields of a gallery entry as the JSON holds them.
pub struct GalleryEntry {
    pub title: Option<String>,
    pub version: Option<String>,
    pub download: Option<String>,
    pub machine_url: Option<String>,
    pub archives_size: Option<u64>,
    pub installed_size: Option<u64>,
}

pub open spec fn entry_view(g: GalleryEntry) -> (
    Option<Seq<char>>,
    Option<Seq<char>>,
    Option<Seq<char>>,
    Option<Seq<char>>,
    Option<u64>,
    Option<u64>,
) {
    (opt_view(g.title), opt_view(g.version), opt_view(g.download), opt_view(g.machine_url), g.archives_size, g.installed_size)
}

/// The first entry of the JSON array `text`: its `title`, `version`,
/// `links.download` and `links.machineURL` strings and its
/// `download_metadata` sizes; `Ok(None)` when the text is no non-empty
/// array; the parser's message when it is not JSON.
pub uninterp spec fn json_gallery_entry(text: Seq<char>) -> Result<
    Option<(Option<Seq<char>>, Option<Seq<char>>, Option<Seq<char>>, Option<Seq<char>>, Option<u64>, Option<u64>)>,
    Seq<char>,
>;

/// `serde_json::from_str` to a `Value` (its error as text), `Value::as_array`
/// and the first element; of that, `Value::pointer` with `Value::as_str` and
/// `Value::as_u64` picks the fields.
#[verifier::external_body]
fn gallery_entry(text: &str) -> (r: Result<Option<GalleryEntry>, String>)
    ensures
        match r {
            Ok(Some(g)) => json_gallery_entry(text@) == Ok::<_, Seq<char>>(Some(entry_view(g))),
            Ok(None) => json_gallery_entry(text@) == Ok::<_, Seq<char>>(None::<(Option<Seq<char>>, Option<Seq<char>>, Option<Seq<char>>, Option<Seq<char>>, Option<u64>, Option<u64>)>),
            Err(e) => json_gallery_entry(text@) == Err::<Option<(Option<Seq<char>>, Option<Seq<char>>, Option<Seq<char>>, Option<Seq<char>>, Option<u64>, Option<u64>)>, Seq<char>>(e@),
        },
{
    let v: serde_json::Value = serde_json::from_str(text).map_err(|e| e.to_string())?;
    let e = match v.as_array().and_then(|a| a.first()) {
        Some(e) => e,
        None => return Ok(None),
    };
    let s = |p: &str| e.pointer(p).and_then(|x| x.as_str()).map(String::from);
    let n = |p: &str| e.pointer(p).and_then(|x| x.as_u64());
    Ok(Some(GalleryEntry {
        title: s("/title"),
        version: s("/version"),
        download: s("/links/download"),
        machine_url: s("/links/machineURL"),
        archives_size: n("/download_metadata/SizeOfArchives"),
        installed_size: n("/download_metadata/SizeOfInstalledFiles"),
    }))
}

pub open spec fn or_unknown(s: Option<Seq<char>>) -> Seq<char> {
    match s {
        Some(v) => v,
        None => "(unknown)"@,
    }
}

pub open spec fn meta_view(m: ModlistMetadata) -> (
    Seq<char>,
    Seq<char>,
    Seq<char>,
    Option<Seq<char>>,
    Option<u64>,
    Option<u64>,
) {
    (m.title@, m.version@, m.download_url@, opt_view(m.machine_url), m.archives_size, m.installed_size)
}

/// The metadata the gallery document `body` fetched from `url` gives, or why not.
pub open spec fn metadata_of(url: Seq<char>, body: Seq<char>) -> Result<
    (Seq<char>, Seq<char>, Seq<char>, Option<Seq<char>>, Option<u64>, Option<u64>),
    Seq<char>,
> {
    match json_gallery_entry(trim(body)) {
        Err(e) => Err("Invalid JSON at "@ + url + ": "@ + e),
        Ok(None) => Err(url + " did not return a non-empty array"@),
        Ok(Some(f)) => {
            let download = match f.2 {
                Some(d) => d,
                None => seq![],
            };
            if download.len() == 0 {
                Err(url + " entry has no links.download — modlist may be unpublished"@)
            } else {
                Ok((or_unknown(f.0), or_unknown(f.1), download, f.3, f.4, f.5))
            }
        },
    }
}

fn or_unknown_exec(s: Option<String>) -> (r: String)
    ensures
        r@ == or_unknown(opt_view(s)),
{
    match s {
        Some(v) => v,
        None => "(unknown)".to_string(),
    }
}

pub struct LinuxBootstrap;

impl LinuxBootstrap {
    /// The metadata address to fetch: the one given, or the gallery's.
    pub fn metadata_url(url: Option<&str>) -> (r: String)
        ensures
            r@ == match url {
                Some(u) => u@,
                None => MODLIST_JSON_URL@,
            },
    {
        match url {
            Some(u) => u.to_string(),
            None => MODLIST_JSON_URL.to_string(),
        }
    }

    /// The metadata of the first gallery entry in `body`, fetched from
    /// `url`: title and version (`(unknown)` when absent), the download link
    /// it must have, the machine URL and the sizes.
    pub fn metadata_from(url: &str, body: &str) -> (r: Result<ModlistMetadata, String>)
        ensures
            match r {
                Ok(m) => metadata_of(url@, body@) == Ok::<_, Seq<char>>(meta_view(m)),
                Err(e) => metadata_of(url@, body@) == Err::<(Seq<char>, Seq<char>, Seq<char>, Option<Seq<char>>, Option<u64>, Option<u64>), Seq<char>>(e@),
            },
    {
        let t = string_of(&trimmed_str(body));
        match gallery_entry(t.as_str()) {
            Err(e) => {
                let mut m: Vec<char> = Vec::new();
                push_str(&mut m, "Invalid JSON at ");
                push_str(&mut m, url);
                push_str(&mut m, ": ");
                push_str(&mut m, e.as_str());
                Err(string_of(&m))
            },
            Ok(None) => {
                let mut m: Vec<char> = Vec::new();
                push_str(&mut m, url);
                push_str(&mut m, " did not return a non-empty array");
                Err(string_of(&m))
            },
            Ok(Some(g)) => {
                let download = match g.download {
                    Some(d) => d,
                    None => String::new(),
                };
                if download.as_str().is_empty() {
                    let mut m: Vec<char> = Vec::new();
                    push_str(&mut m, url);
                    push_str(&mut m, " entry has no links.download — modlist may be unpublished");
                    return Err(string_of(&m));
                }
                Ok(
                    ModlistMetadata {
                        title: or_unknown_exec(g.title),
                        version: or_unknown_exec(g.version),
                        download_url: download,
                        machine_url: g.machine_url,
                        archives_size: g.archives_size,
                        installed_size: g.installed_size,
                    },
                )
            },
        }
    }

    /// Where a headless install starts: refused without the CLF3 binary;
    /// the pinned Wabbajack link when one is given; otherwise `None`, and
    /// the link comes from the gallery metadata.
    pub fn install_source(clf3_found: bool, pinned: Option<&str>) -> (r: Result<Option<String>, String>)
        ensures
            match r {
                Err(e) => !clf3_found && e@ == "clf3 binary not found. Install CLF3 or set $CLF3_BIN to a local build."@,
                Ok(Some(u)) => clf3_found && (pinned matches Some(p) && p@.len() > 0 && u@ == p@),
                Ok(None) => clf3_found && !(pinned matches Some(p) && p@.len() > 0),
            },
    {
        if !clf3_found {
            return Err("clf3 binary not found. Install CLF3 or set $CLF3_BIN to a local build.".to_string());
        }
        match pinned {
            Some(u) => if u.is_empty() {
                Ok(None)
            } else {
                Ok(Some(u.to_string()))
            },
            None => Ok(None),
        }
    }

    /// After an install, the command that opens Fluorine on the install folder.
    pub fn launch_fluorine(binary: Option<String>, install_dir: &str) -> (r: Result<(String, Vec<String>), String>)
        ensures
            match r {
                Ok((program, args)) => binary matches Some(b) && program@ == b@ && strs(args@) == seq![
                    "--instance"@,
                    install_dir@,
                ],
                Err(e) => binary is None && e@ == crate::services::fluorine::not_found_msg(),
            },
    {
        Fluorine::open_instance(binary, install_dir)
    }
}

} // verus!
