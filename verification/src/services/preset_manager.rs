//! ENB and ReShade presets shipped with the FOMOD resources: where they live,
//! where they are installed, and their preview images.
use vstd::prelude::*;
use crate::base64::{base64, encode};
use crate::services::mcm_manager::unsafe_name;
use crate::services::mod_manager::no_flags;
use crate::sort::{stable_order, stable_order_of};
use crate::text::{chars_of, contains_str, eq_ignore_ascii_case, eq_ignore_case_str, has_prefix, push_all, push_str, starts_with_str, string_of, views};

verus! {

pub open spec fn enb_presets(mods: Seq<char>) -> Seq<char> {
    mods + "/Fallen World FOMOD Resources/ENBs/Root/ENBPresets"@
}

pub open spec fn reshade_presets(mods: Seq<char>) -> Seq<char> {
    mods + "/Fallen World FOMOD Resources/ReshadeSetup/Root/ReshadePresets"@
}

pub open spec fn is_enb(t: Seq<char>) -> bool {
    eq_ignore_ascii_case(t, "ENB"@)
}

pub open spec fn is_reshade(t: Seq<char>) -> bool {
    eq_ignore_ascii_case(t, "ReShade"@)
}

/// Where an installed preset of this type goes under the game root.
pub open spec fn install_dir(game_root: Seq<char>, t: Seq<char>) -> Seq<char> {
    if is_enb(t) {
        game_root + "/ENBSeries"@
    } else {
        game_root + "/Reshade"@
    }
}

/// The `data:` URL of an image.
pub open spec fn data_url(mime: Seq<char>, data: Seq<u8>) -> Seq<char> {
    "data:"@ + mime + ";base64,"@ + base64(data)
}

/// `p` is the listing of the preset folder `entry` (name, installed, preview bytes).
pub open spec fn preset_record(p: crate::models::Preset, entry: (Seq<char>, bool, Seq<u8>), preset_type: Seq<char>) -> bool {
    &&& p.name@ == entry.0
    &&& p.preset_type@ == preset_type
    &&& p.installed == entry.1
    &&& match p.preview_image {
        Some(img) => entry.2.len() > 0 && img@ == entry.2,
        None => entry.2.len() == 0,
    }
}

pub open spec fn preset_entry_views(v: Seq<(String, bool, Vec<u8>)>) -> Seq<(Seq<char>, bool, Seq<u8>)> {
    v.map_values(|e: (String, bool, Vec<u8>)| (e.0@, e.1, e.2@))
}

/// The names of listed presets.
pub open spec fn preset_names(ev: Seq<(Seq<char>, bool, Seq<u8>)>) -> Seq<Seq<char>> {
    ev.map_values(|e: (Seq<char>, bool, Seq<u8>)| e.0)
}

/// The first folder of a listing (name, is a folder) not hidden by a leading `.`.
pub open spec fn first_visible(entries: Seq<(Seq<char>, bool)>) -> Option<Seq<char>>
    decreases entries.len(),
{
    if entries.len() == 0 {
        None
    } else if entries[0].1 && !has_prefix(entries[0].0, "."@) {
        Some(entries[0].0)
    } else {
        first_visible(entries.drop_first())
    }
}

fn copy_bytes(v: &Vec<u8>) -> (r: Vec<u8>)
    ensures
        r@ == v@,
{
    let mut r: Vec<u8> = Vec::new();
    let mut i: usize = 0;
    while i < v.len()
        invariant
            i <= v@.len(),
            r@ == v@.take(i as int),
        decreases v@.len() - i,
    {
        r.push(v[i]);
        i += 1;
        assert(r@ =~= v@.take(i as int));
    }
    assert(v@.take(v@.len() as int) =~= v@);
    r
}

pub struct PresetManager;

impl PresetManager {
    /// The presets of a listed preset folder: `entries` holds each preset
    /// folder's name, whether it is installed and its preview bytes (empty
    /// without a readable preview); sorted by name (stable).
    pub fn list_presets(preset_type: &str, entries: &Vec<(String, bool, Vec<u8>)>) -> (r: Vec<crate::models::Preset>)
        ensures
            ({
                let ev = preset_entry_views(entries@);
                &&& r@.len() == ev.len()
                &&& exists|p: Seq<usize>|
                    #[trigger] stable_order_of(no_flags(ev.len()), preset_names(ev), p)
                        && forall|j: int| 0 <= j < r@.len() ==> preset_record(#[trigger] r@[j], ev[p[j] as int], preset_type@)
            }),
    {
        let ghost ev = preset_entry_views(entries@);
        let n = entries.len();
        let mut names: Vec<Vec<char>> = Vec::new();
        let mut first: Vec<bool> = Vec::new();
        let mut k: usize = 0;
        while k < n
            invariant
                k <= n == entries@.len(),
                ev == preset_entry_views(entries@),
                views(names@) == ev.take(k as int).map_values(|e: (Seq<char>, bool, Seq<u8>)| e.0),
                first@ == Seq::new(k as nat, |q: int| false),
            decreases n - k,
        {
            let ghost before = views(names@);
            names.push(chars_of(entries[k].0.as_str()));
            first.push(false);
            assert(views(names@) =~= before.push(ev[k as int].0));
            assert(ev.take(k + 1) =~= ev.take(k as int).push(ev[k as int]));
            assert(views(names@) =~= ev.take(k + 1).map_values(|e: (Seq<char>, bool, Seq<u8>)| e.0));
            assert(first@ =~= Seq::new((k + 1) as nat, |q: int| false));
            k += 1;
        }
        assert(ev.take(n as int) =~= ev);
        let p = stable_order(&first, &names);
        let mut r: Vec<crate::models::Preset> = Vec::new();
        let mut j: usize = 0;
        while j < n
            invariant
                j <= n == entries@.len() == p@.len(),
                ev == preset_entry_views(entries@),
                forall|t: int| 0 <= t < p@.len() ==> p@[t] < n,
                r@.len() == j,
                forall|t: int| 0 <= t < j ==> preset_record(#[trigger] r@[t], ev[p@[t] as int], preset_type@),
            decreases n - j,
        {
            let e = &entries[p[j]];
            let preview = if e.2.len() > 0 {
                Some(copy_bytes(&e.2))
            } else {
                None
            };
            r.push(
                crate::models::Preset {
                    name: string_of(&chars_of(e.0.as_str())),
                    preset_type: preset_type.to_string(),
                    preview_image: preview,
                    installed: e.1,
                },
            );
            j += 1;
        }
        assert(first@ =~= no_flags(ev.len()));
        assert(stable_order_of(no_flags(ev.len()), preset_names(ev), p@));
        r
    }

    /// The active preset of an installed-presets folder listing (name, is a
    /// folder): its first folder not starting with `.`.
    pub fn active_preset(entries: &Vec<(String, bool)>) -> (r: Option<String>)
        ensures
            match r {
                Some(n) => first_visible(entries@.map_values(|e: (String, bool)| (e.0@, e.1))) == Some(n@),
                None => first_visible(entries@.map_values(|e: (String, bool)| (e.0@, e.1))) is None,
            },
    {
        let ghost ev = entries@.map_values(|e: (String, bool)| (e.0@, e.1));
        let mut i: usize = 0;
        assert(ev.skip(0) =~= ev);
        while i < entries.len()
            invariant
                i <= entries@.len(),
                ev == entries@.map_values(|e: (String, bool)| (e.0@, e.1)),
                first_visible(ev) == first_visible(ev.skip(i as int)),
            decreases entries@.len() - i,
        {
            assert(ev.skip(i as int)[0] == ev[i as int]);
            assert(ev.skip(i as int).drop_first() =~= ev.skip(i + 1));
            if entries[i].1 && !starts_with_str(&chars_of(entries[i].0.as_str()), ".") {
                return Some(string_of(&chars_of(entries[i].0.as_str())));
            }
            i += 1;
        }
        None
    }

    /// The folder the presets of a type are listed from.
    pub fn presets_dir(mods_folder: &str, preset_type: &str) -> (r: Result<String, String>)
        ensures
            match r {
                Ok(d) => (is_enb(preset_type@) && d@ == enb_presets(mods_folder@)) || (!is_enb(preset_type@)
                    && is_reshade(preset_type@) && d@ == reshade_presets(mods_folder@)),
                Err(e) => !is_enb(preset_type@) && !is_reshade(preset_type@) && e@
                    == "Invalid preset type: must be ENB or ReShade"@,
            },
    {
        let t = chars_of(preset_type);
        let mut v: Vec<char> = Vec::new();
        push_str(&mut v, mods_folder);
        if eq_ignore_case_str(&t, "ENB") {
            push_str(&mut v, "/Fallen World FOMOD Resources/ENBs/Root/ENBPresets");
        } else if eq_ignore_case_str(&t, "ReShade") {
            push_str(&mut v, "/Fallen World FOMOD Resources/ReshadeSetup/Root/ReshadePresets");
        } else {
            return Err("Invalid preset type: must be ENB or ReShade".to_owned());
        }
        Ok(string_of(&v))
    }

    /// The folder of one shipped preset (used to install it and to find its
    /// preview), after the name and type checks.
    pub fn source_dir(name: &str, preset_type: &str, mods_folder: &str) -> (r: Result<String, String>)
        ensures
            match r {
                Ok(d) => !unsafe_name(name@) && ((is_enb(preset_type@) && d@ == enb_presets(mods_folder@) + "/"@
                    + name@) || (!is_enb(preset_type@) && is_reshade(preset_type@) && d@ == reshade_presets(
                    mods_folder@,
                ) + "/"@ + name@)),
                Err(e) => (unsafe_name(name@) && e@ == "Invalid preset name"@) || (!unsafe_name(name@)
                    && !is_enb(preset_type@) && !is_reshade(preset_type@) && e@ == "Invalid preset type"@),
            },
    {
        let n = chars_of(name);
        if contains_str(&n, "..") || contains_str(&n, "/") || contains_str(&n, "\\") {
            return Err("Invalid preset name".to_owned());
        }
        let t = chars_of(preset_type);
        let mut v: Vec<char> = Vec::new();
        push_str(&mut v, mods_folder);
        if eq_ignore_case_str(&t, "ENB") {
            push_str(&mut v, "/Fallen World FOMOD Resources/ENBs/Root/ENBPresets");
        } else if eq_ignore_case_str(&t, "ReShade") {
            push_str(&mut v, "/Fallen World FOMOD Resources/ReshadeSetup/Root/ReshadePresets");
        } else {
            return Err("Invalid preset type".to_owned());
        }
        push_str(&mut v, "/");
        push_all(&mut v, &n);
        Ok(string_of(&v))
    }

    /// Where presets of a type are installed under the game root.
    pub fn install_dir(game_root: &str, preset_type: &str) -> (r: String)
        ensures
            r@ == install_dir(game_root@, preset_type@),
    {
        let t = chars_of(preset_type);
        let mut v: Vec<char> = Vec::new();
        push_str(&mut v, game_root);
        if eq_ignore_case_str(&t, "ENB") {
            push_str(&mut v, "/ENBSeries");
        } else {
            push_str(&mut v, "/Reshade");
        }
        string_of(&v)
    }

    /// Where an installed preset lives (what `remove_preset` deletes and
    /// `is_preset_installed` looks for).
    pub fn installed_path(game_root: &str, preset_type: &str, name: &str) -> (r: String)
        ensures
            r@ == install_dir(game_root@, preset_type@) + "/"@ + name@,
    {
        let d = Self::install_dir(game_root, preset_type);
        let mut v: Vec<char> = Vec::new();
        push_str(&mut v, d.as_str());
        push_str(&mut v, "/");
        push_str(&mut v, name);
        string_of(&v)
    }

    /// Base64 of an image.
    pub fn encode_base64(data: &[u8]) -> (r: String)
        ensures
            r@ == base64(data@),
    {
        let c = encode(data);
        string_of(&c)
    }

    /// The preview of a preset as a `data:` URL: `data` is the preview read
    /// (`preview.png` when it exists, else `preview.jpg`), and the type is JPEG
    /// whenever `preview.jpg` exists.
    pub fn preview_data_url(data: Option<&[u8]>, jpg_exists: bool) -> (r: Option<String>)
        ensures
            match data {
                Some(d) => r matches Some(u) && u@ == data_url(
                    if jpg_exists { "image/jpeg"@ } else { "image/png"@ },
                    d@,
                ),
                None => r is None,
            },
    {
        match data {
            Some(d) => {
                let mut v: Vec<char> = Vec::new();
                push_str(&mut v, "data:");
                if jpg_exists {
                    push_str(&mut v, "image/jpeg");
                } else {
                    push_str(&mut v, "image/png");
                }
                push_str(&mut v, ";base64,");
                let e = encode(d);
                push_all(&mut v, &e);
                Some(string_of(&v))
            },
            None => None,
        }
    }
}

} // verus!
