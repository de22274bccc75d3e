//! Mod Configuration Menu presets: named sets of INI settings kept as JSON
//! files under `MCM Settings/`, merged into the game INI on request.
use vstd::prelude::*;
use crate::models::IniConfig;
use crate::services::ini_manager::{IniManager, IniMap, Setting, apply_settings, header_name, ini_map, ini_set, is_header};
use crate::string_map::{StringMap, as_map, lemma_as_map_empty};
use crate::text::{chars_of, contains, contains_str, find_ch, find_char, lemma_find, lines, push_str, slice_of, split_lines, string_of, trim, trimmed, trimmed_str, views};

verus! {

/// A named set of INI settings: section to (key to value).
pub struct McmPreset {
    pub name: String,
    pub settings: StringMap<StringMap<String>>,
    pub created_date: String,
}

/// The settings a nested string map holds.
pub open spec fn settings_map(s: Seq<(Seq<char>, Seq<(Seq<char>, Seq<char>)>)>) -> IniMap {
    as_map(s).map_values(|inner: Seq<(Seq<char>, Seq<char>)>| as_map(inner))
}

/// Every (section, key, value) of a nested string map, sections in entry
/// order and keys in entry order within each.
pub open spec fn settings_list(s: Seq<(Seq<char>, Seq<(Seq<char>, Seq<char>)>)>) -> Seq<Setting>
    decreases s.len(),
{
    if s.len() == 0 {
        seq![]
    } else {
        settings_list(s.drop_last()) + s.last().1.map_values(
            |kv: (Seq<char>, Seq<char>)| (s.last().0, kv.0, kv.1),
        )
    }
}

/// A name that could leave the presets folder.
pub open spec fn unsafe_name(name: Seq<char>) -> bool {
    contains(name, ".."@) || contains(name, "/"@) || contains(name, "\\"@)
}

/// The file of preset `name` under `game_path`.
pub open spec fn preset_path(game_path: Seq<char>, name: Seq<char>) -> Seq<char> {
    game_path + "/MCM Settings/"@ + name + ".json"@
}

/// One line of `Fallout4.ini` applied to (settings, current section): keys
/// create their section; headers only switch sections.
pub open spec fn mcm_line(m: IniMap, cur: Seq<char>, line: Seq<char>) -> (IniMap, Seq<char>) {
    let t = trim(line);
    if t.len() == 0 || t[0] == ';' {
        (m, cur)
    } else if is_header(t) {
        (m, header_name(t))
    } else {
        match find_char(t, '=') {
            Some(eq) => (ini_set(m, cur, trim(t.take(eq)), trim(t.skip(eq + 1))), cur),
            None => (m, cur),
        }
    }
}

pub open spec fn mcm_lines(ls: Seq<Seq<char>>) -> (IniMap, Seq<char>)
    decreases ls.len(),
{
    if ls.len() == 0 {
        (Map::empty(), seq![])
    } else {
        let (m, cur) = mcm_lines(ls.drop_last());
        mcm_line(m, cur, ls.last())
    }
}

/// The settings found in the text of `Fallout4.ini`.
pub open spec fn current_settings(content: Seq<char>) -> IniMap {
    mcm_lines(lines(content)).0
}

pub struct McmManager;

impl McmManager {
    /// The preset file to load for `name`, after the name checks.
    pub fn load_preset_path(name: &str, game_path: &str) -> (r: Result<String, String>)
        ensures
            match r {
                Ok(p) => name@.len() > 0 && !unsafe_name(name@) && p@ == preset_path(game_path@, name@),
                Err(e) => (name@.len() == 0 && e@ == "Preset name cannot be empty"@) || (name@.len() > 0
                    && unsafe_name(name@) && e@ == "Invalid preset name"@),
            },
    {
        let n = chars_of(name);
        if n.len() == 0 {
            return Err("Preset name cannot be empty".to_owned());
        }
        if contains_str(&n, "..") || contains_str(&n, "/") || contains_str(&n, "\\") {
            return Err("Invalid preset name".to_owned());
        }
        Ok(Self::path_of(game_path, name))
    }

    fn path_of(game_path: &str, name: &str) -> (r: String)
        ensures
            r@ == preset_path(game_path@, name@),
    {
        let mut v: Vec<char> = Vec::new();
        push_str(&mut v, game_path);
        push_str(&mut v, "/MCM Settings/");
        push_str(&mut v, name);
        push_str(&mut v, ".json");
        string_of(&v)
    }

    /// The preset file to write for `name`, after the name checks.
    pub fn save_preset_path(name: &str, game_path: &str) -> (r: Result<String, String>)
        ensures
            match r {
                Ok(p) => trim(name@).len() > 0 && !unsafe_name(name@) && p@ == preset_path(game_path@, name@),
                Err(e) => (trim(name@).len() == 0 && e@ == "Preset name cannot be empty"@) || (trim(
                    name@,
                ).len() > 0 && unsafe_name(name@) && e@ == "Preset name cannot contain path separators"@),
            },
    {
        let n = chars_of(name);
        let t = trimmed(&n);
        if n.len() == 0 || t.len() == 0 {
            proof {
                if n.len() == 0 {
                    assert(trim(name@) =~= Seq::<char>::empty()) by {
                        assert(crate::text::trim_start(name@) =~= name@);
                    }
                }
            }
            return Err("Preset name cannot be empty".to_owned());
        }
        if contains_str(&n, "..") || contains_str(&n, "/") || contains_str(&n, "\\") {
            return Err("Preset name cannot contain path separators".to_owned());
        }
        Ok(Self::path_of(game_path, name))
    }

    /// The preset file to delete for `name`.
    pub fn delete_preset_path(name: &str, game_path: &str) -> (r: Result<String, String>)
        ensures
            match r {
                Ok(p) => name@.len() > 0 && p@ == preset_path(game_path@, name@),
                Err(e) => name@.len() == 0 && e@ == "Preset name cannot be empty"@,
            },
    {
        let n = chars_of(name);
        if n.len() == 0 {
            return Err("Preset name cannot be empty".to_owned());
        }
        Ok(Self::path_of(game_path, name))
    }

    /// Whether preset `name` exists, given the files that exist.
    pub fn preset_exists(name: &str, game_path: &str, existing_files: &[String]) -> (r: Result<bool, String>)
        ensures
            match r {
                Ok(b) => name@.len() > 0 && b == crate::text::strs(existing_files@).contains(
                    preset_path(game_path@, name@),
                ),
                Err(e) => name@.len() == 0 && e@ == "Preset name cannot be empty"@,
            },
    {
        let p = match Self::delete_preset_path(name, game_path) {
            Ok(p) => p,
            Err(e) => return Err(e),
        };
        let mut i: usize = 0;
        while i < existing_files.len()
            invariant
                i <= existing_files@.len(),
                p@ == preset_path(game_path@, name@),
                name@.len() > 0,
                forall|j: int| 0 <= j < i ==> crate::text::strs(existing_files@)[j] != p@,
            decreases existing_files@.len() - i,
        {
            if existing_files[i] == p {
                assert(crate::text::strs(existing_files@)[i as int] == p@);
                return Ok(true);
            }
            i += 1;
        }
        Ok(false)
    }

    /// Merge a preset's settings into the game INI.
    pub fn apply_preset(preset: &McmPreset, config: &mut IniConfig)
        ensures
            ini_map(final(config)) == apply_settings(ini_map(old(config)), settings_list(preset.settings@)),
    {
        let ghost sv = preset.settings@;
        let ghost m0 = ini_map(config);
        let n = preset.settings.len();
        let mut s: usize = 0;
        assert(sv.take(0) =~= Seq::<(Seq<char>, Seq<(Seq<char>, Seq<char>)>)>::empty());
        while s < n
            invariant
                s <= n == sv.len(),
                sv == preset.settings@,
                ini_map(config) == apply_settings(m0, settings_list(sv.take(s as int))),
            decreases n - s,
        {
            let (section, inner) = preset.settings.entry_at(s);
            let ghost kv = inner@;
            let ghost base = settings_list(sv.take(s as int));
            assert(sv.take(s + 1).drop_last() =~= sv.take(s as int));
            assert(sv.take(s + 1).last() == sv[s as int]);
            let m = inner.len();
            let mut k: usize = 0;
            assert(kv.take(0).map_values(|p: (Seq<char>, Seq<char>)| (section@, p.0, p.1)) =~= Seq::<Setting>::empty());
            assert(base + Seq::<Setting>::empty() =~= base);
            while k < m
                invariant
                    k <= m == kv.len(),
                    kv == inner@,
                    ini_map(config) == apply_settings(
                        m0,
                        base + kv.take(k as int).map_values(|p: (Seq<char>, Seq<char>)| (section@, p.0, p.1)),
                    ),
                decreases m - k,
            {
                let (key, value) = inner.entry_at(k);
                let ghost l0 = base + kv.take(k as int).map_values(|p: (Seq<char>, Seq<char>)| (section@, p.0, p.1));
                IniManager::set_value(config, section.as_str(), key.as_str(), value.as_str());
                let ghost l1 = base + kv.take(k + 1).map_values(|p: (Seq<char>, Seq<char>)| (section@, p.0, p.1));
                assert(l1.drop_last() =~= l0);
                assert(l1.last() == (section@, key@, value@));
                k += 1;
            }
            assert(kv.take(m as int) =~= kv);
            s += 1;
        }
        assert(sv.take(n as int) =~= sv);
    }

    /// Current settings of `Fallout4.ini`, from its text.
    pub fn get_current_settings(content: &str) -> (r: StringMap<StringMap<String>>)
        ensures
            settings_map(r@) == current_settings(content@),
    {
        let chars = chars_of(content);
        let ls = split_lines(&chars);
        let mut config = IniConfig { sections: StringMap::new() };
        let mut current: Vec<char> = Vec::new();
        proof {
            lemma_as_map_empty::<Seq<(Seq<char>, Seq<char>)>>();
            assert(ini_map(&config) =~= Map::empty());
            assert(views(ls@).take(0) =~= Seq::<Seq<char>>::empty());
        }
        let mut i: usize = 0;
        while i < ls.len()
            invariant
                i <= ls@.len(),
                views(ls@) == lines(content@),
                (ini_map(&config), current@) == mcm_lines(views(ls@).take(i as int)),
            decreases ls@.len() - i,
        {
            let t = trimmed(&ls[i]);
            let ghost line = ls@[i as int]@;
            proof {
                assert(views(ls@)[i as int] == line);
                assert(views(ls@).take(i + 1).drop_last() =~= views(ls@).take(i as int));
                assert(views(ls@).take(i + 1).last() == line);
            }
            if t.len() == 0 || t[0] == ';' {
            } else if t.len() >= 2 && t[0] == '[' && t[t.len() - 1] == ']' {
                current = slice_of(&t, 1, t.len() - 1);
            } else {
                match find_ch(&t, '=') {
                    Some(eq) => {
                        proof {
                            lemma_find(t@, seq!['=']);
                        }
                        let key = trimmed(&slice_of(&t, 0, eq));
                        let value = trimmed(&slice_of(&t, eq + 1, t.len()));
                        proof {
                            assert(t@.take(eq as int) =~= t@.subrange(0, eq as int));
                            assert(t@.skip(eq + 1) =~= t@.subrange(eq + 1, t@.len() as int));
                        }
                        let sec = string_of(&current);
                        let k = string_of(&key);
                        let v = string_of(&value);
                        IniManager::set_value(&mut config, sec.as_str(), k.as_str(), v.as_str());
                    },
                    None => {},
                }
            }
            i += 1;
        }
        assert(views(ls@).take(ls@.len() as int) =~= views(ls@));
        config.sections
    }

    /// Name and creation date of a loaded preset.
    pub fn get_preset_info(loaded: Result<McmPreset, String>) -> (r: Result<(String, String), String>)
        ensures
            match loaded {
                Ok(p) => r matches Ok(info) && info.0@ == p.name@ && info.1@ == p.created_date@,
                Err(e) => r matches Err(e2) && e2@ == e@,
            },
    {
        match loaded {
            Ok(p) => Ok((p.name, p.created_date)),
            Err(e) => Err(e),
        }
    }
}

} // verus!
