//! Mod Organizer 2 profiles: the checks before creating, renaming, deleting
//! or activating one, what a profile lists, and the edit of
//! `ModOrganizer.ini` that selects it. Folders are read and changed by the
//! caller.
use vstd::prelude::*;
use crate::models::GameProfile;
use crate::services::load_order_validator::{join_path, join_path_exec};
use crate::services::mod_detector::filter_some;
use crate::string_map::StringMap;
use crate::text::{
    chars_of, contains_str, eq_ignore_ascii_case, eq_ignore_case_str, eq_str, has_prefix, join, lines, push_all,
    push_str, slice_of, split_lines, starts_with_str, string_of, strs, trim, trimmed, trimmed_str, views,
    contains, is_ws, trim_end, trim_start,
};

use crate::sort::{stable_order, stable_order_of};

verus! {

/// A character a profile name may not hold.
pub open spec fn bad_name_char(c: char) -> bool {
    c == '/' || c == '\\' || c == ':' || c == '*' || c == '?' || c == '"' || c == '<' || c == '>' || c == '|'
}

/// Why a profile name is refused, if it is.
pub open spec fn name_error(name: Seq<char>) -> Option<Seq<char>> {
    if name.len() == 0 {
        Some("Profile name cannot be empty"@)
    } else if exists|i: int| 0 <= i < name.len() && bad_name_char(#[trigger] name[i]) {
        Some("Profile name contains invalid characters"@)
    } else {
        None
    }
}

/// The mod a `modlist.txt` line enables (`+Name`).
pub open spec fn enabled_entry(line: Seq<char>) -> Option<Seq<char>> {
    let t = trim(line);
    if t.len() > 0 && t[0] == '+' {
        Some(trim(t.drop_first()))
    } else {
        None
    }
}

/// The mods a profile's `modlist.txt` enables, in order.
pub open spec fn enabled_mods(content: Option<Seq<char>>) -> Seq<Seq<char>> {
    match content {
        Some(c) => filter_some(lines(c), |l: Seq<char>| enabled_entry(l)),
        None => seq![],
    }
}

pub open spec fn not_found_msg(name: Seq<char>) -> Seq<char> {
    "Profile '"@ + name + "' not found"@
}

pub open spec fn exists_msg(name: Seq<char>) -> Seq<char> {
    "Profile '"@ + name + "' already exists"@
}

/// The `selected_profile` / `selectedProfile` key a trimmed line starts, if any.
pub open spec fn profile_key(t: Seq<char>) -> Option<Seq<char>> {
    if has_prefix(t, "selected_profile="@) {
        Some("selected_profile"@)
    } else if has_prefix(t, "selectedProfile="@) {
        Some("selectedProfile"@)
    } else {
        None
    }
}

/// One line of `ModOrganizer.ini` in the profile rewrite:
/// (lines out, inside `[General]`, patched).
pub open spec fn patch_line(name: Seq<char>, st: (Seq<Seq<char>>, bool, bool), line: Seq<char>) -> (
    Seq<Seq<char>>,
    bool,
    bool,
) {
    let t = trim(line);
    if t.len() > 0 && t[0] == '[' {
        (st.0.push(line), eq_ignore_ascii_case(t, "[General]"@), st.2)
    } else if st.1 && profile_key(t) is Some {
        let key = profile_key(t)->0;
        let new_line = if contains(t, "@ByteArray("@) {
            key + "=@ByteArray("@ + name + ")"@
        } else {
            key + "="@ + name
        };
        (st.0.push(new_line), st.1, true)
    } else {
        (st.0.push(line), st.1, st.2)
    }
}

pub open spec fn patch_lines(name: Seq<char>, ls: Seq<Seq<char>>) -> (Seq<Seq<char>>, bool, bool)
    decreases ls.len(),
{
    if ls.len() == 0 {
        (seq![], false, false)
    } else {
        patch_line(name, patch_lines(name, ls.drop_last()), ls.last())
    }
}

/// Position of the first line from `i` on that is `[General]` (ignoring
/// case and surrounding spaces).
pub open spec fn general_from(ls: Seq<Seq<char>>, i: int) -> Option<int>
    decreases ls.len() - i,
{
    if i < 0 || i >= ls.len() {
        None
    } else if eq_ignore_ascii_case(trim(ls[i]), "[General]"@) {
        Some(i)
    } else {
        general_from(ls, i + 1)
    }
}

pub open spec fn general_pos(ls: Seq<Seq<char>>) -> Option<int> {
    general_from(ls, 0)
}

/// `ModOrganizer.ini` selecting profile `name`: existing keys of `[General]`
/// are rewritten (keeping Qt's `@ByteArray()` form when used); without one,
/// a key is inserted after `[General]`, or, with no such section, under a
/// new `[General]` header at the end.
pub open spec fn patched_ini(content: Seq<char>, name: Seq<char>) -> Seq<char> {
    join(patched_lines(content, name), "\n"@) + if content.len() > 0 && content.last() == '\n' {
        "\n"@
    } else {
        seq![]
    }
}

/// The lines of `patched_ini`.
pub open spec fn patched_lines(content: Seq<char>, name: Seq<char>) -> Seq<Seq<char>> {
    let st = patch_lines(name, lines(content));
    if st.2 {
        st.0
    } else {
        let entry = "selected_profile=@ByteArray("@ + name + ")"@;
        match general_pos(st.0) {
            Some(i) => st.0.insert(i + 1, entry),
            None => st.0.push("[General]"@).push(entry),
        }
    }
}

/// A line that opens a section, as the profile rewrite sees it.
pub open spec fn section_line(l: Seq<char>) -> bool {
    trim(l).len() > 0 && trim(l)[0] == '['
}

/// Line `i` of `ls` lies in a `[General]` section: the last section header
/// before it is `[General]` (ignoring case and surrounding spaces).
pub open spec fn under_general(ls: Seq<Seq<char>>, i: int) -> bool {
    exists|g: int|
        0 <= g < i && section_line(#[trigger] ls[g]) && eq_ignore_ascii_case(trim(ls[g]), "[General]"@) && forall|q: int|
            g < q < i ==> !section_line(#[trigger] ls[q])
}

/// A line that selects profile `name`.
pub open spec fn selects_profile(l: Seq<char>, name: Seq<char>) -> bool {
    ||| l == "selected_profile=@ByteArray("@ + name + ")"@
    ||| l == "selectedProfile=@ByteArray("@ + name + ")"@
    ||| l == "selected_profile="@ + name
    ||| l == "selectedProfile="@ + name
}

proof fn lemma_general_is_section(l: Seq<char>)
    requires
        eq_ignore_ascii_case(trim(l), "[General]"@),
    ensures
        section_line(l),
{
    reveal_strlit("[General]");
    let t = trim(l);
    assert(crate::text::ascii_lower(t).len() == crate::text::ascii_lower("[General]"@).len());
    assert(crate::text::ascii_lower(t)[0] == crate::text::ascii_lower("[General]"@)[0]);
}

proof fn lemma_patch_lines_general(name: Seq<char>, ls: Seq<Seq<char>>)
    ensures
        patch_lines(name, ls).1 <==> under_general(patch_lines(name, ls).0, patch_lines(name, ls).0.len() as int),
        patch_lines(name, ls).2 ==> exists|i: int|
            0 <= i < patch_lines(name, ls).0.len() && selects_profile(#[trigger] patch_lines(name, ls).0[i], name)
                && under_general(patch_lines(name, ls).0, i),
    decreases ls.len(),
{
    reveal_strlit("selected_profile=");
    reveal_strlit("selectedProfile=");
    reveal_strlit("selected_profile");
    reveal_strlit("selectedProfile");
    reveal_strlit("=@ByteArray(");
    reveal_strlit("selected_profile=@ByteArray(");
    reveal_strlit("selectedProfile=@ByteArray(");
    reveal_strlit("=");
    if ls.len() > 0 {
        let pre = ls.drop_last();
        lemma_patch_lines_general(name, pre);
        let st = patch_lines(name, pre);
        let line = ls.last();
        let t = trim(line);
        let st2 = patch_lines(name, ls);
        let n = st.0.len() as int;
        assert(st2.0.len() == n + 1);
        assert(forall|q: int| 0 <= q < n ==> st2.0[q] == st.0[q]);
        // what was under [General] before stays so
        assert forall|i: int| 0 <= i <= n && under_general(st.0, i) implies under_general(st2.0, i) by {
            let g = choose|g: int|
                0 <= g < i && section_line(#[trigger] st.0[g]) && eq_ignore_ascii_case(trim(st.0[g]), "[General]"@) && forall|q: int|
                    g < q < i ==> !section_line(#[trigger] st.0[q]);
            assert(st2.0[g] == st.0[g]);
            assert forall|q: int| g < q < i implies !section_line(#[trigger] st2.0[q]) by {
                assert(st2.0[q] == st.0[q]);
            }
        }
        if t.len() > 0 && t[0] == '[' {
            assert(st2.0[n] == line);
            assert(section_line(st2.0[n]));
            if st2.1 {
                assert(under_general(st2.0, n + 1)) by {
                    assert(section_line(st2.0[n]) && eq_ignore_ascii_case(trim(st2.0[n]), "[General]"@));
                }
            }
            if under_general(st2.0, n + 1) {
                let g = choose|g: int|
                    0 <= g < n + 1 && section_line(#[trigger] st2.0[g]) && eq_ignore_ascii_case(trim(st2.0[g]), "[General]"@) && forall|q: int|
                        g < q < n + 1 ==> !section_line(#[trigger] st2.0[q]);
                assert(g == n);
            }
        } else if st.1 && profile_key(t) is Some {
            let key = profile_key(t)->0;
            let nl = st2.0[n];
            assert(nl[0] == 's') by {
                if contains(t, "@ByteArray("@) {
                    assert(nl == key + "=@ByteArray("@ + name + ")"@);
                } else {
                    assert(nl == key + "="@ + name);
                }
                assert(key[0] == 's');
            }
            assert(!section_line(nl)) by {
                lemma_trim_first(nl);
            }
            assert(selects_profile(nl, name)) by {
                if contains(t, "@ByteArray("@) {
                    if key == "selected_profile"@ {
                        assert(key + "=@ByteArray("@ =~= "selected_profile=@ByteArray("@);
                        assert(nl =~= "selected_profile=@ByteArray("@ + name + ")"@);
                    } else {
                        assert(key + "=@ByteArray("@ =~= "selectedProfile=@ByteArray("@);
                        assert(nl =~= "selectedProfile=@ByteArray("@ + name + ")"@);
                    }
                } else {
                    if key == "selected_profile"@ {
                        assert(key + "="@ =~= "selected_profile="@);
                    } else {
                        assert(key + "="@ =~= "selectedProfile="@);
                    }
                }
            }
            assert(under_general(st2.0, n));
            let g = choose|g: int|
                0 <= g < n && section_line(#[trigger] st2.0[g]) && eq_ignore_ascii_case(trim(st2.0[g]), "[General]"@) && forall|q: int|
                    g < q < n ==> !section_line(#[trigger] st2.0[q]);
            assert(under_general(st2.0, n + 1)) by {
                assert forall|q: int| g < q < n + 1 implies !section_line(#[trigger] st2.0[q]) by {}
            }
        } else {
            assert(st2.0[n] == line);
            assert(!section_line(line));
            if under_general(st2.0, n + 1) {
                let g = choose|g: int|
                    0 <= g < n + 1 && section_line(#[trigger] st2.0[g]) && eq_ignore_ascii_case(trim(st2.0[g]), "[General]"@) && forall|q: int|
                        g < q < n + 1 ==> !section_line(#[trigger] st2.0[q]);
                assert(g < n);
                assert(st2.0[g] == st.0[g]);
                assert forall|q: int| g < q < n implies !section_line(#[trigger] st.0[q]) by {
                    assert(st2.0[q] == st.0[q]);
                }
                assert(under_general(st.0, n));
            }
            if st2.1 {
                assert(under_general(st.0, n));
                let g = choose|g: int|
                    0 <= g < n && section_line(#[trigger] st.0[g]) && eq_ignore_ascii_case(trim(st.0[g]), "[General]"@) && forall|q: int|
                        g < q < n ==> !section_line(#[trigger] st.0[q]);
                assert(st2.0[g] == st.0[g]);
                assert forall|q: int| g < q < n + 1 implies !section_line(#[trigger] st2.0[q]) by {
                    if q < n {
                        assert(st2.0[q] == st.0[q]);
                    }
                }
            }
        }
        if st.2 {
            let i = choose|i: int| 0 <= i < st.0.len() && selects_profile(#[trigger] st.0[i], name) && under_general(st.0, i);
            assert(st2.0[i] == st.0[i]);
            assert(selects_profile(st2.0[i], name));
        }
    }
}

proof fn lemma_trim_end_first(s: Seq<char>)
    requires
        s.len() > 0,
        !is_ws(s[0]),
    ensures
        trim_end(s).len() > 0,
        trim_end(s)[0] == s[0],
    decreases s.len(),
{
    if is_ws(s.last()) {
        assert(s.len() > 1);
        assert(s.drop_last()[0] == s[0]);
        lemma_trim_end_first(s.drop_last());
    }
}

proof fn lemma_trim_first(s: Seq<char>)
    requires
        s.len() > 0,
        !is_ws(s[0]),
    ensures
        trim(s).len() > 0,
        trim(s)[0] == s[0],
{
    assert(trim_start(s) == s);
    lemma_trim_end_first(s);
}

proof fn lemma_general_from(ls: Seq<Seq<char>>, i: int)
    ensures
        general_from(ls, i) matches Some(g) ==> 0 <= g < ls.len() && eq_ignore_ascii_case(trim(ls[g]), "[General]"@),
    decreases ls.len() - i,
{
    if 0 <= i < ls.len() && !eq_ignore_ascii_case(trim(ls[i]), "[General]"@) {
        lemma_general_from(ls, i + 1);
    }
}

/// After selecting profile `name`, `ModOrganizer.ini` has a line that
/// selects it inside a `[General]` section.
pub proof fn law_profile_selected_under_general(content: Seq<char>, name: Seq<char>)
    ensures
        exists|i: int|
            0 <= i < patched_lines(content, name).len() && selects_profile(#[trigger] patched_lines(content, name)[i], name)
                && under_general(patched_lines(content, name), i),
{
    reveal_strlit("[General]");
    reveal_strlit("selected_profile=@ByteArray(");
    let st = patch_lines(name, lines(content));
    lemma_patch_lines_general(name, lines(content));
    let ls = patched_lines(content, name);
    if !st.2 {
        let entry = "selected_profile=@ByteArray("@ + name + ")"@;
        assert(selects_profile(entry, name));
        lemma_general_from(st.0, 0);
        match general_pos(st.0) {
            Some(g) => {
                assert(ls[g + 1] == entry);
                assert(ls[g] == st.0[g]);
                lemma_general_is_section(st.0[g]);
                assert(under_general(ls, g + 1));
            },
            None => {
                let n = st.0.len() as int;
                assert(ls[n + 1] == entry);
                assert(ls[n] == "[General]"@);
                assert(trim("[General]"@) =~= "[General]"@) by {
                    let h = "[General]"@;
                    assert(h[0] == '[' && h.last() == ']');
                    assert(trim_start(h) == h);
                    assert(trim_end(h) == h);
                }
                lemma_general_is_section(ls[n]);
                assert(under_general(ls, n + 1));
            },
        }
    }
}

/// `p` is the profile listed for a folder (name, created, modified, modlist text).
pub open spec fn profile_record(p: GameProfile, entry: (Seq<char>, Seq<char>, Seq<char>, Option<Seq<char>>), active: Seq<char>) -> bool {
    &&& p.name@ == entry.0
    &&& p.is_active == (entry.0 == active)
    &&& strs(p.enabled_mods@) == enabled_mods(entry.3)
    &&& p.ini_overrides@.len() == 0
    &&& p.mcm_preset is None
    &&& p.created_date@ == entry.1
    &&& p.last_modified@ == entry.2
}

pub open spec fn profile_entry_views(v: Seq<(String, String, String, Option<String>)>) -> Seq<
    (Seq<char>, Seq<char>, Seq<char>, Option<Seq<char>>),
> {
    v.map_values(
        |e: (String, String, String, Option<String>)|
            (
                e.0@,
                e.1@,
                e.2@,
                match e.3 {
                    Some(m) => Some(m@),
                    None => None,
                },
            ),
    )
}

pub open spec fn active_flags(ev: Seq<(Seq<char>, Seq<char>, Seq<char>, Option<Seq<char>>)>, active: Seq<char>) -> Seq<bool> {
    ev.map_values(|e: (Seq<char>, Seq<char>, Seq<char>, Option<Seq<char>>)| e.0 == active)
}

pub open spec fn profile_names(ev: Seq<(Seq<char>, Seq<char>, Seq<char>, Option<Seq<char>>)>) -> Seq<Seq<char>> {
    ev.map_values(|e: (Seq<char>, Seq<char>, Seq<char>, Option<Seq<char>>)| e.0)
}

/// The selected profile's name, empty when none is known.
pub open spec fn active_name(active: Option<&str>) -> Seq<char> {
    match active {
        Some(a) => a@,
        None => Seq::<char>::empty(),
    }
}

/// `r` lists the profile folders `ev`: the active one first, then by name
/// (a stable order).
pub open spec fn sorted_profiles(
    r: Seq<GameProfile>,
    ev: Seq<(Seq<char>, Seq<char>, Seq<char>, Option<Seq<char>>)>,
    act: Seq<char>,
) -> bool {
    &&& r.len() == ev.len()
    &&& exists|p: Seq<usize>|
        #[trigger] stable_order_of(active_flags(ev, act), profile_names(ev), p) && forall|j: int|
            0 <= j < r.len() ==> profile_record(#[trigger] r[j], ev[p[j] as int], act)
}

pub struct ProfileManager;

impl ProfileManager {
    /// The profiles folder under an MO2 root.
    pub fn profiles_dir_of(mo2_root: &str) -> (r: String)
        ensures
            r@ == join_path(mo2_root@, "profiles"@),
    {
        let v = join_path_exec(mo2_root, "profiles");
        string_of(&v)
    }

    /// `<mo2_root>/profiles`, when MO2 was found and that folder exists
    /// (`found`).
    pub fn get_profiles_dir(mo2_root: Option<&str>, found: bool) -> (r: Result<String, String>)
        ensures
            match mo2_root {
                None => r matches Err(e) && e@ == "Mod Organizer 2 not detected"@,
                Some(root) => if found {
                    r matches Ok(d) && d@ == join_path(root@, "profiles"@)
                } else {
                    r matches Err(e) && e@ == "MO2 profiles folder not found: "@ + join_path(root@, "profiles"@)
                },
            },
    {
        let root = match mo2_root {
            Some(r) => r,
            None => return Err("Mod Organizer 2 not detected".to_owned()),
        };
        let dir = Self::profiles_dir_of(root);
        if !found {
            let mut v: Vec<char> = Vec::new();
            push_str(&mut v, "MO2 profiles folder not found: ");
            push_str(&mut v, dir.as_str());
            return Err(string_of(&v));
        }
        Ok(dir)
    }

    /// A profile name must be non-empty and free of path and shell characters.
    pub fn validate_name(name: &str) -> (r: Result<(), String>)
        ensures
            match name_error(name@) {
                Some(m) => r matches Err(e) && e@ == m,
                None => r is Ok,
            },
    {
        let c = chars_of(name);
        if c.len() == 0 {
            return Err("Profile name cannot be empty".to_owned());
        }
        let mut i: usize = 0;
        while i < c.len()
            invariant
                i <= c@.len(),
                c@ == name@,
                forall|k: int| 0 <= k < i ==> !bad_name_char(#[trigger] c@[k]),
            decreases c@.len() - i,
        {
            let x = c[i];
            if x == '/' || x == '\\' || x == ':' || x == '*' || x == '?' || x == '"' || x == '<' || x == '>' || x
                == '|' {
                assert(bad_name_char(name@[i as int]));
                return Err("Profile name contains invalid characters".to_owned());
            }
            i += 1;
        }
        Ok(())
    }

    /// The mods a profile's `modlist.txt` (its text, `None` when unreadable)
    /// enables.
    pub fn read_enabled_mods(modlist: Option<&str>) -> (r: Vec<String>)
        ensures
            strs(r@) == enabled_mods(
                match modlist {
                    Some(m) => Some(m@),
                    None => None,
                },
            ),
    {
        let content = match modlist {
            Some(m) => m,
            None => {
                let r: Vec<String> = Vec::new();
                assert(strs(r@) =~= Seq::<Seq<char>>::empty());
                return r;
            },
        };
        let c = chars_of(content);
        let ls = split_lines(&c);
        let ghost f = |l: Seq<char>| enabled_entry(l);
        let mut out: Vec<String> = Vec::new();
        let mut i: usize = 0;
        assert(views(ls@).take(0) =~= Seq::<Seq<char>>::empty());
        while i < ls.len()
            invariant
                i <= ls@.len(),
                views(ls@) == lines(content@),
                f == (|l: Seq<char>| enabled_entry(l)),
                strs(out@) == filter_some(views(ls@).take(i as int), f),
            decreases ls@.len() - i,
        {
            assert(views(ls@).take(i + 1).drop_last() =~= views(ls@).take(i as int));
            assert(views(ls@).take(i + 1).last() == ls@[i as int]@);
            let t = trimmed(&ls[i]);
            let ghost before = strs(out@);
            if t.len() > 0 && t[0] == '+' {
                let rest = slice_of(&t, 1, t.len());
                assert(rest@ =~= t@.drop_first());
                let n = trimmed(&rest);
                out.push(string_of(&n));
                assert(strs(out@) =~= before.push(n@));
            }
            i += 1;
        }
        assert(views(ls@).take(ls@.len() as int) =~= views(ls@));
        out
    }

    /// The profiles of the profiles folder: `folders` holds each profile
    /// folder's name, creation and change times and `modlist.txt` text;
    /// `active` is MO2's selected profile. The active one first, then by
    /// name (stable).
    pub fn list_profiles(active: Option<&str>, folders: &Vec<(String, String, String, Option<String>)>) -> (r: Vec<
        GameProfile,
    >)
        ensures
            sorted_profiles(r@, profile_entry_views(folders@), active_name(active)),
    {
        let ghost ev = profile_entry_views(folders@);
        let ghost act = active_name(active);
        let n = folders.len();
        let mut names: Vec<Vec<char>> = Vec::new();
        let mut flags: Vec<bool> = Vec::new();
        let mut k: usize = 0;
        while k < n
            invariant
                k <= n == folders@.len(),
                ev == profile_entry_views(folders@),
                act == active_name(active),
                views(names@) == profile_names(ev.take(k as int)),
                flags@ == active_flags(ev.take(k as int), act),
            decreases n - k,
        {
            let nm = chars_of(folders[k].0.as_str());
            let is_active = match active {
                Some(a) => eq_str(&nm, a),
                None => nm.len() == 0,
            };
            proof {
                if active is None && nm@.len() == 0 {
                    assert(nm@ =~= Seq::<char>::empty());
                }
            }
            let ghost before = views(names@);
            names.push(nm);
            flags.push(is_active);
            assert(ev.take(k + 1) =~= ev.take(k as int).push(ev[k as int]));
            assert(views(names@) =~= before.push(ev[k as int].0));
            assert(views(names@) =~= profile_names(ev.take(k + 1)));
            assert(flags@ =~= active_flags(ev.take(k + 1), act));
            k += 1;
        }
        assert(ev.take(n as int) =~= ev);
        let p = stable_order(&flags, &names);
        let mut r: Vec<GameProfile> = Vec::new();
        let mut j: usize = 0;
        while j < n
            invariant
                j <= n == folders@.len() == p@.len(),
                ev == profile_entry_views(folders@),
                act == active_name(active),
                forall|t: int| 0 <= t < p@.len() ==> p@[t] < n,
                r@.len() == j,
                forall|t: int| 0 <= t < j ==> profile_record(#[trigger] r@[t], ev[p@[t] as int], act),
            decreases n - j,
        {
            let f = &folders[p[j]];
            let modlist: Option<&str> = match &f.3 {
                Some(m) => Some(m.as_str()),
                None => None,
            };
            let loaded = Self::load_profile(
                f.0.as_str(),
                true,
                active,
                string_of(&chars_of(f.1.as_str())),
                string_of(&chars_of(f.2.as_str())),
                modlist,
            );
            match loaded {
                Ok(prof) => {
                    r.push(prof);
                },
                Err(_) => {
                    assert(false);
                },
            }
            j += 1;
        }
        assert(stable_order_of(active_flags(ev, act), profile_names(ev), p@));
        assert(r@.len() == ev.len());
        assert(exists|q: Seq<usize>|
            #[trigger] stable_order_of(active_flags(ev, act), profile_names(ev), q) && forall|t: int|
                0 <= t < r@.len() ==> profile_record(#[trigger] r@[t], ev[q[t] as int], act));
        r
    }

    /// A profile's details from what was found: `found` tells whether its
    /// folder exists, `active` is MO2's selected profile.
    pub fn load_profile(
        name: &str,
        found: bool,
        active: Option<&str>,
        created_date: String,
        last_modified: String,
        modlist: Option<&str>,
    ) -> (r: Result<GameProfile, String>)
        ensures
            !found ==> (r matches Err(e) && e@ == not_found_msg(name@)),
            found ==> (r matches Ok(p) && p.name@ == name@ && p.is_active == (name@ == match active {
                Some(a) => a@,
                None => Seq::<char>::empty(),
            }) && strs(p.enabled_mods@) == enabled_mods(
                match modlist {
                    Some(m) => Some(m@),
                    None => None,
                },
            ) && p.ini_overrides@.len() == 0 && p.mcm_preset is None && p.created_date@ == created_date@
                && p.last_modified@ == last_modified@),
    {
        if !found {
            let mut v: Vec<char> = Vec::new();
            push_str(&mut v, "Profile '");
            push_str(&mut v, name);
            push_str(&mut v, "' not found");
            return Err(string_of(&v));
        }
        let n = chars_of(name);
        let is_active = match active {
            Some(a) => eq_str(&n, a),
            None => n.len() == 0,
        };
        proof {
            if n@.len() == 0 {
                assert(n@ =~= Seq::<char>::empty());
            }
        }
        Ok(GameProfile {
            is_active,
            name: name.to_owned(),
            enabled_mods: Self::read_enabled_mods(modlist),
            ini_overrides: StringMap::new(),
            mcm_preset: None,
            created_date,
            last_modified,
        })
    }

    /// Whether a profile exists: the folder check (`found`) once the profiles
    /// folder is known.
    pub fn profile_exists(profiles_dir: Result<String, String>, found: bool) -> (r: Result<bool, String>)
        ensures
            match profiles_dir {
                Ok(_) => r == Ok::<bool, String>(found),
                Err(e) => r matches Err(e2) && e2@ == e@,
            },
    {
        match profiles_dir {
            Ok(_) => Ok(found),
            Err(e) => Err(e),
        }
    }

    /// (created, last modified, name) of a loaded profile.
    pub fn get_profile_metadata(loaded: Result<GameProfile, String>) -> (r: Result<(String, String, String), String>)
        ensures
            match loaded {
                Ok(p) => r matches Ok(m) && m.0@ == p.created_date@ && m.1@ == p.last_modified@ && m.2@ == p.name@,
                Err(e) => r matches Err(e2) && e2@ == e@,
            },
    {
        match loaded {
            Ok(p) => Ok((p.created_date, p.last_modified, p.name)),
            Err(e) => Err(e),
        }
    }

    /// The folder a new profile goes to: its trimmed name checked, and not
    /// taken (`dest_exists` tells whether `<profiles>/<name>` exists).
    pub fn save_profile(profile: &GameProfile, profiles_dir: Result<String, String>, dest_exists: bool) -> (r: Result<
        String,
        String,
    >)
        ensures
            match name_error(trim(profile.name@)) {
                Some(m) => r matches Err(e) && e@ == m,
                None => match profiles_dir {
                    Err(e) => r matches Err(e2) && e2@ == e@,
                    Ok(d) => if dest_exists {
                        r matches Err(e) && e@ == exists_msg(trim(profile.name@))
                    } else {
                        r matches Ok(p) && p@ == join_path(d@, trim(profile.name@))
                    },
                },
            },
    {
        let t = trimmed_str(profile.name.as_str());
        let name = string_of(&t);
        match Self::validate_name(name.as_str()) {
            Ok(()) => {},
            Err(e) => return Err(e),
        }
        let dir = match profiles_dir {
            Ok(d) => d,
            Err(e) => return Err(e),
        };
        if dest_exists {
            let mut v: Vec<char> = Vec::new();
            push_str(&mut v, "Profile '");
            push_str(&mut v, name.as_str());
            push_str(&mut v, "' already exists");
            return Err(string_of(&v));
        }
        let p = join_path_exec(dir.as_str(), name.as_str());
        Ok(string_of(&p))
    }

    /// The checks before deleting a profile; returns its folder.
    pub fn delete_profile(name: &str, active: Option<&str>, profiles_dir: Result<String, String>, found: bool) -> (r: Result<
        String,
        String,
    >)
        ensures
            trim(name@).len() == 0 ==> (r matches Err(e) && e@ == "Profile name cannot be empty"@),
            trim(name@).len() > 0 && (active matches Some(a) && a@ == name@) ==> (r matches Err(e) && e@
                == "Cannot delete the currently active profile \u{2014} activate another profile first."@),
            trim(name@).len() > 0 && !(active matches Some(a) && a@ == name@) ==> match profiles_dir {
                Err(e) => r matches Err(e2) && e2@ == e@,
                Ok(d) => if found {
                    r matches Ok(p) && p@ == join_path(d@, name@)
                } else {
                    r matches Err(e) && e@ == not_found_msg(name@)
                },
            },
    {
        let t = trimmed_str(name);
        if t.len() == 0 {
            return Err("Profile name cannot be empty".to_owned());
        }
        let n = chars_of(name);
        if let Some(a) = active {
            if eq_str(&n, a) {
                return Err("Cannot delete the currently active profile \u{2014} activate another profile first.".to_owned());
            }
        }
        let dir = match profiles_dir {
            Ok(d) => d,
            Err(e) => return Err(e),
        };
        if !found {
            let mut v: Vec<char> = Vec::new();
            push_str(&mut v, "Profile '");
            push_str(&mut v, name);
            push_str(&mut v, "' not found");
            return Err(string_of(&v));
        }
        let p = join_path_exec(dir.as_str(), name);
        Ok(string_of(&p))
    }

    /// The checks before renaming a profile; returns the old and the new
    /// folder, and whether the selection must follow the rename.
    pub fn rename_profile(
        old_name: &str,
        new_name: &str,
        active: Option<&str>,
        profiles_dir: Result<String, String>,
        old_found: bool,
        new_exists: bool,
    ) -> (r: Result<(String, String, bool), String>)
        ensures
            eq_ignore_ascii_case(old_name@, "Fallen World"@) ==> (r matches Err(e) && e@
                == "The 'Fallen World' profile is the source of truth and cannot be renamed."@),
            !eq_ignore_ascii_case(old_name@, "Fallen World"@) ==> match name_error(trim(new_name@)) {
                Some(m) => r matches Err(e) && e@ == m,
                None => match profiles_dir {
                    Err(e) => r matches Err(e2) && e2@ == e@,
                    Ok(d) => if !old_found {
                        r matches Err(e) && e@ == not_found_msg(old_name@)
                    } else if new_exists {
                        r matches Err(e) && e@ == exists_msg(trim(new_name@))
                    } else {
                        r matches Ok(x) && x.0@ == join_path(d@, old_name@) && x.1@ == join_path(d@, trim(new_name@))
                            && x.2 == (active matches Some(a) && a@ == old_name@)
                    },
                },
            },
    {
        let o = chars_of(old_name);
        if eq_ignore_case_str(&o, "Fallen World") {
            return Err("The 'Fallen World' profile is the source of truth and cannot be renamed.".to_owned());
        }
        let t = trimmed_str(new_name);
        let new_trimmed = string_of(&t);
        match Self::validate_name(new_trimmed.as_str()) {
            Ok(()) => {},
            Err(e) => return Err(e),
        }
        let dir = match profiles_dir {
            Ok(d) => d,
            Err(e) => return Err(e),
        };
        if !old_found {
            let mut v: Vec<char> = Vec::new();
            push_str(&mut v, "Profile '");
            push_str(&mut v, old_name);
            push_str(&mut v, "' not found");
            return Err(string_of(&v));
        }
        if new_exists {
            let mut v: Vec<char> = Vec::new();
            push_str(&mut v, "Profile '");
            push_str(&mut v, new_trimmed.as_str());
            push_str(&mut v, "' already exists");
            return Err(string_of(&v));
        }
        let follows = match active {
            Some(a) => eq_str(&o, a),
            None => false,
        };
        let op = join_path_exec(dir.as_str(), old_name);
        let np = join_path_exec(dir.as_str(), new_trimmed.as_str());
        Ok((string_of(&op), string_of(&np), follows))
    }

    /// The new text of `ModOrganizer.ini` when activating profile `name`;
    /// `found` tells whether the profile folder exists, `ini` is the text of
    /// `ModOrganizer.ini` (`None` when absent, `Err` when unreadable).
    pub fn activate_profile(name: &str, found: bool, ini: Option<Result<String, String>>) -> (r: Result<String, String>)
        ensures
            !found ==> (r matches Err(e) && e@ == not_found_msg(name@)),
            found ==> match ini {
                None => r matches Err(e) && e@ == "ModOrganizer.ini not found"@,
                Some(Err(e)) => r matches Err(e2) && e2@ == "Cannot read ModOrganizer.ini: "@ + e@,
                Some(Ok(c)) => r matches Ok(t) && t@ == patched_ini(c@, name@),
            },
    {
        if !found {
            let mut v: Vec<char> = Vec::new();
            push_str(&mut v, "Profile '");
            push_str(&mut v, name);
            push_str(&mut v, "' not found");
            return Err(string_of(&v));
        }
        match ini {
            None => Err("ModOrganizer.ini not found".to_owned()),
            Some(Err(e)) => {
                let mut v: Vec<char> = Vec::new();
                push_str(&mut v, "Cannot read ModOrganizer.ini: ");
                push_str(&mut v, e.as_str());
                Err(string_of(&v))
            },
            Some(Ok(c)) => Ok(Self::patch_selected_profile(c.as_str(), name)),
        }
    }

    fn first_general(ls: &Vec<Vec<char>>) -> (r: Option<usize>)
        ensures
            match r {
                Some(p) => p < ls@.len() && general_pos(views(ls@)) == Some(p as int),
                None => general_pos(views(ls@)) is None,
            },
    {
        let ghost v = views(ls@);
        let mut g: usize = 0;
        while g < ls.len()
            invariant
                g <= ls@.len(),
                v == views(ls@),
                general_pos(v) == general_from(v, g as int),
            decreases ls@.len() - g,
        {
            let tt = trimmed(&ls[g]);
            assert(v[g as int] == ls@[g as int]@);
            if eq_ignore_case_str(&tt, "[General]") {
                return Some(g);
            }
            g += 1;
        }
        None
    }

    /// Rewrite the `selected_profile` / `selectedProfile` key of `[General]`
    /// in `ModOrganizer.ini`, keeping Qt's `@ByteArray()` encoding when used.
    #[verifier::spinoff_prover]
    pub fn patch_selected_profile(content: &str, profile_name: &str) -> (r: String)
        ensures
            r@ == patched_ini(content@, profile_name@),
    {
        let c = chars_of(content);
        let ls = split_lines(&c);
        let ghost lv = views(ls@);
        let mut out: Vec<Vec<char>> = Vec::new();
        let mut in_general = false;
        let mut patched = false;
        let mut i: usize = 0;
        assert(lv.take(0) =~= Seq::<Seq<char>>::empty());
        assert(views(out@) =~= Seq::<Seq<char>>::empty());
        proof {
            reveal_strlit("selected_profile=");
            reveal_strlit("selectedProfile=");
        }
        while i < ls.len()
            invariant
                i <= ls@.len(),
                lv == views(ls@),
                lv == lines(content@),
                patch_lines(profile_name@, lv.take(i as int)) == (views(out@), in_general, patched),
            decreases ls@.len() - i,
        {
            assert(lv.take(i + 1).drop_last() =~= lv.take(i as int));
            assert(lv.take(i + 1).last() == ls@[i as int]@);
            let line = &ls[i];
            let t = trimmed(line);
            let ghost before = views(out@);
            if t.len() > 0 && t[0] == '[' {
                in_general = eq_ignore_case_str(&t, "[General]");
                let cp = slice_of(line, 0, line.len());
                assert(cp@ =~= line@);
                out.push(cp);
                assert(views(out@) =~= before.push(line@));
            } else {
                let k1 = starts_with_str(&t, "selected_profile=");
                let k2 = starts_with_str(&t, "selectedProfile=");
                if in_general && (k1 || k2) {
                    let mut nl: Vec<char> = Vec::new();
                    if k1 {
                        push_str(&mut nl, "selected_profile");
                    } else {
                        push_str(&mut nl, "selectedProfile");
                    }
                    if contains_str(&t, "@ByteArray(") {
                        push_str(&mut nl, "=@ByteArray(");
                        push_str(&mut nl, profile_name);
                        push_str(&mut nl, ")");
                    } else {
                        push_str(&mut nl, "=");
                        push_str(&mut nl, profile_name);
                    }
                    let ghost nv = nl@;
                    out.push(nl);
                    assert(views(out@) =~= before.push(nv));
                    patched = true;
                } else {
                    let cp = slice_of(line, 0, line.len());
                    assert(cp@ =~= line@);
                    out.push(cp);
                    assert(views(out@) =~= before.push(line@));
                }
            }
            i += 1;
        }
        assert(lv.take(ls@.len() as int) =~= lv);
        if !patched {
            let ghost o0 = views(out@);
            let pos = Self::first_general(&out);
            let mut entry: Vec<char> = Vec::new();
            push_str(&mut entry, "selected_profile=@ByteArray(");
            push_str(&mut entry, profile_name);
            push_str(&mut entry, ")");
            let ghost ev = entry@;
            match pos {
                Some(p) => {
                    let ol = out.len();
                    assert(p < ol);
                    out.insert(p + 1, entry);
                    assert(views(out@) =~= o0.insert(p + 1, ev));
                },
                None => {
                    proof {
                        assert(o0.take(out@.len() as int) =~= o0);
                    }
                    let mut hdr: Vec<char> = Vec::new();
                    push_str(&mut hdr, "[General]");
                    out.push(hdr);
                    out.push(entry);
                    assert(views(out@) =~= o0.push("[General]"@).push(ev));
                },
            }
        }
        let ghost ov = views(out@);
        let mut text: Vec<char> = Vec::new();
        let mut w: usize = 0;
        assert(join(ov.take(0), "\n"@) =~= Seq::<char>::empty());
        while w < out.len()
            invariant
                w <= out@.len(),
                ov == views(out@),
                text@ == join(ov.take(w as int), "\n"@),
            decreases out@.len() - w,
        {
            assert(ov.take(w + 1).drop_last() =~= ov.take(w as int));
            assert(ov.take(w + 1).last() == out@[w as int]@);
            if w > 0 {
                push_str(&mut text, "\n");
            } else {
                assert(ov.take(1)[0] == out@[0]@);
            }
            push_all(&mut text, &out[w]);
            w += 1;
        }
        assert(ov.take(out@.len() as int) =~= ov);
        if c.len() > 0 && c[c.len() - 1] == '\n' {
            text.push('\n');
            proof {
                reveal_strlit("\n");
            }
            assert(text@ =~= join(ov, "\n"@) + "\n"@);
        } else {
            assert(text@ =~= join(ov, "\n"@) + Seq::<char>::empty());
        }
        string_of(&text)
    }
}

} // verus!
