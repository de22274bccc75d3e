//! Locating the game, Mod Organizer 2 and the INI folder. The file system is
//! probed by the caller; this module decides what the findings mean.
use vstd::prelude::*;
use crate::services::load_order_validator::{join_path, join_path_exec};
use crate::text::{chars_of, has_prefix, has_suffix, lines, push_str, slice_of, split_lines, starts_with_str, ends_with_str, string_of, strs, trim, trimmed, trimmed_str, views};

verus! {

/// The game's and the mod manager's folders.
#[derive(Debug, Clone)]
pub struct GamePaths {
    pub game_root: String,
    pub mods_folder: String,
    pub mo2_root: Option<String>,
    pub mo2_profile: Option<String>,
    /// Folder containing Fallout4.ini / Fallout4Prefs.ini / Fallout4Custom.ini.
    pub ini_folder: String,
}

/// `s` without any leading or trailing `"`.
pub open spec fn trim_quotes(s: Seq<char>) -> Seq<char> {
    strip_quotes_end(strip_quotes_start(s))
}

pub open spec fn strip_quotes_start(s: Seq<char>) -> Seq<char>
    decreases s.len(),
{
    if s.len() > 0 && s[0] == '"' {
        strip_quotes_start(s.drop_first())
    } else {
        s
    }
}

pub open spec fn strip_quotes_end(s: Seq<char>) -> Seq<char>
    decreases s.len(),
{
    if s.len() > 0 && s.last() == '"' {
        strip_quotes_end(s.drop_last())
    } else {
        s
    }
}

/// A Qt value of MO2's INI without its `@ByteArray(...)` wrapper and quotes.
pub open spec fn unwrap_qt(value: Seq<char>) -> Seq<char> {
    let t = trim(value);
    let pre = "@ByteArray("@;
    if has_prefix(t, pre) && has_suffix(t.skip(pre.len() as int), ")"@) {
        let rest = t.skip(pre.len() as int);
        trim_quotes(rest.take(rest.len() - 1))
    } else {
        trim_quotes(t)
    }
}

/// The profile a `ModOrganizer.ini` line selects, if it names one.
pub open spec fn line_profile(line: Seq<char>) -> Option<Seq<char>> {
    let t = trim(line);
    let v = if has_prefix(t, "selected_profile="@) {
        Some(t.skip(17))
    } else if has_prefix(t, "selectedProfile="@) {
        Some(t.skip(16))
    } else {
        None
    };
    match v {
        Some(raw) => if unwrap_qt(trim(raw)).len() > 0 {
            Some(unwrap_qt(trim(raw)))
        } else {
            None
        },
        None => None,
    }
}

pub open spec fn first_profile(ls: Seq<Seq<char>>) -> Option<Seq<char>>
    decreases ls.len(),
{
    if ls.len() == 0 {
        None
    } else {
        match line_profile(ls[0]) {
            Some(p) => Some(p),
            None => first_profile(ls.drop_first()),
        }
    }
}

/// The active profile: the first the INI names, else the only profile folder.
pub open spec fn active_profile(ini: Option<Seq<char>>, profile_dirs: Seq<Seq<char>>) -> Option<Seq<char>> {
    match (match ini {
        Some(c) => first_profile(lines(c)),
        None => None,
    }) {
        Some(p) => Some(p),
        None => if profile_dirs.len() == 1 {
            Some(profile_dirs[0])
        } else {
            None
        },
    }
}

/// The first candidate folder that holds `ModOrganizer.exe`.
pub open spec fn first_with_mo2(cands: Seq<Seq<char>>, existing: Seq<Seq<char>>) -> Option<Seq<char>>
    decreases cands.len(),
{
    if cands.len() == 0 {
        None
    } else if existing.contains(join_path(cands[0], "ModOrganizer.exe"@)) {
        Some(cands[0])
    } else {
        first_with_mo2(cands.drop_first(), existing)
    }
}

/// The MO2 folder near the game: at each level above it, the level itself
/// when it holds `ModOrganizer.exe`, else its first subfolder that does.
pub open spec fn mo2_near(levels: Seq<(Seq<char>, Seq<Seq<char>>)>, existing: Seq<Seq<char>>) -> Option<Seq<char>>
    decreases levels.len(),
{
    if levels.len() == 0 {
        None
    } else {
        let (dir, children) = levels[0];
        if existing.contains(join_path(dir, "ModOrganizer.exe"@)) {
            Some(dir)
        } else {
            match first_with_mo2(children.map_values(|c: Seq<char>| join_path(dir, c)), existing) {
                Some(f) => Some(f),
                None => mo2_near(levels.drop_first(), existing),
            }
        }
    }
}

pub open spec fn level_views(v: Seq<(String, Vec<String>)>) -> Seq<(Seq<char>, Seq<Seq<char>>)> {
    v.map_values(|l: (String, Vec<String>)| (l.0@, strs(l.1@)))
}

pub open spec fn opt_str(o: Option<&str>) -> Option<Seq<char>> {
    match o {
        Some(s) => Some(s@),
        None => None,
    }
}

pub open spec fn opt_string(o: Option<String>) -> Option<Seq<char>> {
    match o {
        Some(s) => Some(s@),
        None => None,
    }
}

/// The first of `cands` holding `ModOrganizer.exe`.
fn first_mo2_in(cands: &Vec<String>, existing: &[String]) -> (r: Option<String>)
    ensures
        opt_string(r) == first_with_mo2(strs(cands@), strs(existing@)),
{
    let ghost cv = strs(cands@);
    let mut i: usize = 0;
    assert(cv.skip(0) =~= cv);
    while i < cands.len()
        invariant
            i <= cands@.len(),
            cv == strs(cands@),
            first_with_mo2(cv, strs(existing@)) == first_with_mo2(cv.skip(i as int), strs(existing@)),
        decreases cands@.len() - i,
    {
        assert(cv.skip(i as int)[0] == cands@[i as int]@);
        assert(cv.skip(i as int).drop_first() =~= cv.skip(i + 1));
        let exe = join_path_exec(cands[i].as_str(), "ModOrganizer.exe");
        if crate::services::load_order_validator::listed(existing, &exe) {
            return Some(string_of(&chars_of(cands[i].as_str())));
        }
        i += 1;
    }
    None
}

pub struct PathDiscoveryService;

impl PathDiscoveryService {
    /// The MO2 folder: the one the registry names when it exists, else the
    /// first candidate that holds `ModOrganizer.exe` (`existing` lists the
    /// paths found on disk).
    pub fn find_mo2_root(registry: Option<&str>, candidates: &Vec<String>, existing: &[String]) -> (r: Option<String>)
        ensures
            opt_string(r) == match registry {
                Some(p) => if strs(existing@).contains(p@) {
                    Some(p@)
                } else {
                    first_with_mo2(strs(candidates@), strs(existing@))
                },
                None => first_with_mo2(strs(candidates@), strs(existing@)),
            },
    {
        match registry {
            Some(p) => {
                if crate::services::load_order_validator::listed(existing, &chars_of(p)) {
                    return Some(p.to_string());
                }
            },
            None => {},
        }
        first_mo2_in(candidates, existing)
    }

    /// The folders of the home folder searched for a portable MO2 or
    /// Fluorine instance, in order.
    pub fn mo2_search_dirs(home: &str) -> (r: Vec<String>)
        ensures
            strs(r@) == seq![join_path(home@, "Games"@), join_path(home@, "games"@), join_path(home@, ".local/share"@)],
    {
        let mut r: Vec<String> = Vec::new();
        r.push(string_of(&join_path_exec(home, "Games")));
        r.push(string_of(&join_path_exec(home, "games")));
        r.push(string_of(&join_path_exec(home, ".local/share")));
        assert(strs(r@) =~= seq![join_path(home@, "Games"@), join_path(home@, "games"@), join_path(home@, ".local/share"@)]);
        r
    }

    /// A portable MO2 near the game: `levels` are the folders above the game
    /// folder, nearest first, each with its subfolders.
    pub fn find_mo2_near(levels: &Vec<(String, Vec<String>)>, existing: &[String]) -> (r: Option<String>)
        ensures
            opt_string(r) == mo2_near(level_views(levels@), strs(existing@)),
    {
        let ghost lv = level_views(levels@);
        let mut i: usize = 0;
        assert(lv.skip(0) =~= lv);
        while i < levels.len()
            invariant
                i <= levels@.len(),
                lv == level_views(levels@),
                mo2_near(lv, strs(existing@)) == mo2_near(lv.skip(i as int), strs(existing@)),
            decreases levels@.len() - i,
        {
            assert(lv.skip(i as int)[0] == lv[i as int]);
            assert(lv.skip(i as int).drop_first() =~= lv.skip(i + 1));
            let dir = levels[i].0.as_str();
            let exe = join_path_exec(dir, "ModOrganizer.exe");
            if crate::services::load_order_validator::listed(existing, &exe) {
                return Some(dir.to_string());
            }
            let mut subs: Vec<String> = Vec::new();
            let mut k: usize = 0;
            while k < levels[i].1.len()
                invariant
                    i < levels@.len(),
                    k <= levels@[i as int].1@.len(),
                    strs(subs@) == strs(levels@[i as int].1@).take(k as int).map_values(
                        |c: Seq<char>| join_path(levels@[i as int].0@, c),
                    ),
                decreases levels@[i as int].1@.len() - k,
            {
                let ghost before = strs(subs@);
                subs.push(string_of(&join_path_exec(levels[i].0.as_str(), levels[i].1[k].as_str())));
                assert(strs(levels@[i as int].1@).take(k + 1) =~= strs(levels@[i as int].1@).take(k as int).push(
                    levels@[i as int].1@[k as int]@,
                ));
                assert(strs(subs@) =~= before.push(join_path(levels@[i as int].0@, levels@[i as int].1@[k as int]@)));
                assert(strs(subs@) =~= strs(levels@[i as int].1@).take(k + 1).map_values(
                    |c: Seq<char>| join_path(levels@[i as int].0@, c),
                ));
                k += 1;
            }
            assert(strs(levels@[i as int].1@).take(levels@[i as int].1@.len() as int) =~= strs(levels@[i as int].1@));
            match first_mo2_in(&subs, existing) {
                Some(f) => {
                    return Some(f);
                },
                None => {},
            }
            i += 1;
        }
        None
    }

    /// Strip Qt-style value wrappers MO2 uses in its INI:
    /// `@ByteArray(Fallen World)` -> `Fallen World`.
    pub fn unwrap_qt_value(value: &str) -> (r: String)
        ensures
            r@ == unwrap_qt(value@),
    {
        let t = trimmed_str(value);
        proof {
            reveal_strlit("@ByteArray(");
            reveal_strlit(")");
        }
        if starts_with_str(&t, "@ByteArray(") {
            let rest = slice_of(&t, 11, t.len());
            assert(rest@ =~= t@.skip(11));
            if ends_with_str(&rest, ")") {
                let inner = slice_of(&rest, 0, rest.len() - 1);
                assert(inner@ =~= rest@.take(rest@.len() - 1));
                let r = trim_quotes_exec(&inner);
                return string_of(&r);
            }
        }
        let r = trim_quotes_exec(&t);
        string_of(&r)
    }

    /// The active MO2 profile from `ModOrganizer.ini` (`None` when unreadable)
    /// and, as a fallback, the profile folders found.
    pub fn get_mo2_active_profile(ini: Option<&str>, profile_dirs: &[String]) -> (r: Result<String, String>)
        ensures
            match active_profile(
                match ini {
                    Some(c) => Some(c@),
                    None => None,
                },
                strs(profile_dirs@),
            ) {
                Some(p) => r matches Ok(x) && x@ == p,
                None => r matches Err(e) && e@ == "Active MO2 profile could not be determined"@,
            },
    {
        if let Some(content) = ini {
            let c = chars_of(content);
            let ls = split_lines(&c);
            let ghost lv = views(ls@);
            let mut i: usize = 0;
            assert(lv.skip(0) =~= lv);
            proof {
                reveal_strlit("selected_profile=");
                reveal_strlit("selectedProfile=");
            }
            while i < ls.len()
                invariant
                    i <= ls@.len(),
                    lv == views(ls@),
                    lv == lines(content@),
                    ini == Some(content),
                    first_profile(lv) == first_profile(lv.skip(i as int)),
                decreases ls@.len() - i,
            {
                assert(lv.skip(i as int)[0] == ls@[i as int]@);
                assert(lv.skip(i as int).drop_first() =~= lv.skip(i + 1));
                let t = trimmed(&ls[i]);
                proof {
                    reveal_strlit("selected_profile=");
                    reveal_strlit("selectedProfile=");
                }
                let raw = if starts_with_str(&t, "selected_profile=") {
                    let r = slice_of(&t, 17, t.len());
                    assert(r@ =~= t@.skip(17));
                    Some(r)
                } else if starts_with_str(&t, "selectedProfile=") {
                    let r = slice_of(&t, 16, t.len());
                    assert(r@ =~= t@.skip(16));
                    Some(r)
                } else {
                    None
                };
                if let Some(r) = raw {
                    let rt = trimmed(&r);
                    let u = Self::unwrap_qt_value(string_of(&rt).as_str());
                    if !u.as_str().is_empty() {
                        return Ok(u);
                    }
                }
                i += 1;
            }
            assert(lv.skip(i as int) =~= Seq::<Seq<char>>::empty());
        }
        if profile_dirs.len() == 1 {
            return Ok(profile_dirs[0].clone());
        }
        Err("Active MO2 profile could not be determined".to_owned())
    }

    /// All game and mod paths from what was found: the game folder next to the
    /// launcher (`found_root`) or the saved one, MO2's root and active profile
    /// (a profile counts only with a root),
    /// and whether `<mo2_root>/mods` and `<mo2_root>/profiles/<profile>` exist.
    pub fn discover(
        found_root: Option<String>,
        saved_root: Option<String>,
        mo2_root: Option<String>,
        mo2_profile: Option<String>,
        mo2_mods_exists: bool,
        profile_dir_exists: bool,
    ) -> (r: Result<GamePaths, String>)
        ensures
            found_root is None && saved_root is None ==> (r matches Err(e) && e@
                == "Cannot find Fallen World installation: Fallen World path not configured. Use Settings to set it."@),
            !(found_root is None && saved_root is None) ==> (r matches Ok(p) && {
                let root = match found_root {
                    Some(f) => f@,
                    None => saved_root->0@,
                };
                &&& p.game_root@ == root
                &&& p.mods_folder@ == match mo2_root {
                    Some(m) => if mo2_mods_exists {
                        join_path(m@, "mods"@)
                    } else {
                        join_path(root, "mods"@)
                    },
                    None => join_path(root, "mods"@),
                }
                &&& p.ini_folder@ == match (mo2_root, mo2_profile) {
                    (Some(m), Some(pr)) => if profile_dir_exists {
                        join_path(join_path(m@, "profiles"@), pr@)
                    } else {
                        root
                    },
                    _ => root,
                }
                &&& p.mo2_root == mo2_root
                &&& p.mo2_profile == if mo2_root is Some {
                    mo2_profile
                } else {
                    None
                }
            }),
    {
        let game_root = match found_root {
            Some(f) => f,
            None => match saved_root {
                Some(s) => s,
                None => return Err(
                    "Cannot find Fallen World installation: Fallen World path not configured. Use Settings to set it.".to_owned(),
                ),
            },
        };
        let mods_folder = match &mo2_root {
            Some(m) => if mo2_mods_exists {
                string_of(&join_path_exec(m.as_str(), "mods"))
            } else {
                string_of(&join_path_exec(game_root.as_str(), "mods"))
            },
            None => string_of(&join_path_exec(game_root.as_str(), "mods")),
        };
        let ini_folder = match (&mo2_root, &mo2_profile) {
            (Some(m), Some(pr)) => if profile_dir_exists {
                let profiles = string_of(&join_path_exec(m.as_str(), "profiles"));
                string_of(&join_path_exec(profiles.as_str(), pr.as_str()))
            } else {
                game_root.clone()
            },
            _ => game_root.clone(),
        };
        let mo2_profile = if mo2_root.is_some() {
            mo2_profile
        } else {
            None
        };
        Ok(GamePaths { game_root, mods_folder, mo2_root, mo2_profile, ini_folder })
    }

    /// Is a game path configured (found next to the launcher, or saved)?
    pub fn is_configured(found_root: Option<&str>, saved_root: Option<&str>) -> (b: bool)
        ensures
            b == (found_root is Some || saved_root is Some),
    {
        found_root.is_some() || saved_root.is_some()
    }

    /// The configured game path, if any: the one found, else the saved one.
    pub fn get_configured_path(found_root: Option<String>, saved_root: Option<String>) -> (r: Option<String>)
        ensures
            r == match found_root {
                Some(f) => Some(f),
                None => saved_root,
            },
    {
        match found_root {
            Some(f) => Some(f),
            None => saved_root,
        }
    }

    /// The folder to save as the game path: `path` must exist and be a folder,
    /// and `found` is the folder holding `Fallout4.exe` found within three levels.
    pub fn save_game_path(path: &str, exists: bool, is_dir: bool, found: Option<String>) -> (r: Result<String, String>)
        ensures
            !exists ==> (r matches Err(e) && e@ == "Path does not exist: "@ + path@),
            exists && !is_dir ==> (r matches Err(e) && e@ == "Path is not a directory: "@ + path@),
            exists && is_dir ==> match found {
                Some(f) => r matches Ok(x) && x@ == f@,
                None => r matches Err(e) && e@ == "Fallout4.exe not found in \""@ + path@
                    + "\" or its subdirectories (searched 3 levels). Select the folder that contains Fallout4.exe, or any parent of it."@,
            },
    {
        if !exists {
            let mut v: Vec<char> = Vec::new();
            push_str(&mut v, "Path does not exist: ");
            push_str(&mut v, path);
            return Err(string_of(&v));
        }
        if !is_dir {
            let mut v: Vec<char> = Vec::new();
            push_str(&mut v, "Path is not a directory: ");
            push_str(&mut v, path);
            return Err(string_of(&v));
        }
        match found {
            Some(f) => Ok(f),
            None => {
                let mut v: Vec<char> = Vec::new();
                push_str(&mut v, "Fallout4.exe not found in \"");
                push_str(&mut v, path);
                push_str(
                    &mut v,
                    "\" or its subdirectories (searched 3 levels). Select the folder that contains Fallout4.exe, or any parent of it.",
                );
                Err(string_of(&v))
            },
        }
    }
}

/// `trim_matches('"')`.
fn trim_quotes_exec(s: &Vec<char>) -> (r: Vec<char>)
    ensures
        r@ == trim_quotes(s@),
{
    let mut i: usize = 0;
    assert(s@.skip(0) =~= s@);
    while i < s.len() && s[i] == '"'
        invariant
            i <= s@.len(),
            strip_quotes_start(s@) == strip_quotes_start(s@.skip(i as int)),
        decreases s@.len() - i,
    {
        assert(s@.skip(i as int).drop_first() =~= s@.skip(i + 1));
        i += 1;
    }
    proof {
        if i < s@.len() {
            assert(s@.skip(i as int)[0] == s@[i as int]);
        }
    }
    let ghost st = s@.skip(i as int);
    let mut j: usize = s.len();
    assert(st.take(st.len() as int) =~= st);
    while j > i && s[j - 1] == '"'
        invariant
            i <= j <= s@.len(),
            st == s@.skip(i as int),
            strip_quotes_end(st) == strip_quotes_end(st.take(j - i)),
        decreases j,
    {
        assert(st.take(j - i).drop_last() =~= st.take(j - 1 - i));
        assert(st.take(j - i).last() == s@[j - 1]);
        j -= 1;
    }
    proof {
        if j > i {
            assert(st.take(j - i).last() == s@[j - 1]);
        }
        assert(st.take(j - i) =~= s@.subrange(i as int, j as int));
    }
    slice_of(s, i, j)
}

} // verus!
