//! Reading Mod Organizer 2 mod lists and naming mod folders.
use vstd::prelude::*;
use crate::text::{
    chars_of, string_of, trimmed, trimmed_str, lines, split_lines, views, trim, is_ws, lowercase,
    lower_chars, eq_str, replace_ch, replace_char, is_whitespace, slice_of, push_all, join, strs,
};

use crate::sort::{stable_order, stable_order_of};

verus! {

/// A mod folder with the basic info used by the update check.
#[derive(Debug, Clone)]
pub struct SimpleMod {
    pub id: String,
    pub name: String,
    pub version: String,
}

/// `s` without any leading `c` (`str::trim_start_matches(c)`).
pub open spec fn strip_all_start(s: Seq<char>, c: char) -> Seq<char>
    decreases s.len(),
{
    if s.len() > 0 && s[0] == c {
        strip_all_start(s.drop_first(), c)
    } else {
        s
    }
}

/// What one `modlist.txt` line enables: the name after a `+`, if any.
pub open spec fn spec_parse_modlist_line(line: Seq<char>) -> Option<Seq<char>> {
    let t = trim(line);
    if t.len() == 0 || t[0] != '+' {
        None
    } else {
        let name = trim(strip_all_start(t, '+'));
        if name.len() == 0 {
            None
        } else {
            Some(name)
        }
    }
}

/// The mod a `modlist.txt` line names, enabled (`+`) or disabled (`-`).
pub open spec fn load_order_entry(line: Seq<char>) -> Option<Seq<char>> {
    let t = trim(line);
    if t.len() > 0 && (t[0] == '+' || t[0] == '-') && trim(t.drop_first()).len() > 0 {
        Some(trim(t.drop_first()))
    } else {
        None
    }
}

/// Every listed mod is named after its folder and has version "1.0.0".
pub open spec fn named_by_folder(r: Seq<SimpleMod>) -> bool {
    forall|k: int| 0 <= k < r.len() ==> #[trigger] r[k].name@ == r[k].id@ && r[k].version@ == "1.0.0"@
}

/// The defined results of `f` over `ls`, in order.
pub open spec fn filter_some(ls: Seq<Seq<char>>, f: spec_fn(Seq<char>) -> Option<Seq<char>>) -> Seq<Seq<char>>
    decreases ls.len(),
{
    if ls.len() == 0 {
        seq![]
    } else {
        let prev = filter_some(ls.drop_last(), f);
        match f(ls.last()) {
            Some(x) => prev.push(x),
            None => prev,
        }
    }
}

/// Folder names (lower case) that hold no mod.
pub open spec fn special_folder(lower: Seq<char>) -> bool {
    ||| lower == "fallen world fomod resources"@
    ||| lower == "fallen world optional mods"@
    ||| lower == "fomod resources"@
    ||| lower == "optional mods"@
    ||| lower == "overwrite"@
    ||| lower == "downloads"@
    ||| lower == "backup"@
    ||| lower == ".git"@
    ||| lower == ".hg"@
    ||| lower == ".svn"@
    ||| lower == "._"@
    ||| lower == "__pycache__"@
    ||| lower == ".venv"@
    ||| lower == "node_modules"@
}

/// Scanning state after `s`: the finished words and the word in progress.
pub open spec fn words_state(s: Seq<char>) -> (Seq<Seq<char>>, Seq<char>)
    decreases s.len(),
{
    if s.len() == 0 {
        (seq![], seq![])
    } else {
        let (ws, cur) = words_state(s.drop_last());
        if is_ws(s.last()) {
            if cur.len() > 0 {
                (ws.push(cur), seq![])
            } else {
                (ws, cur)
            }
        } else {
            (ws, cur.push(s.last()))
        }
    }
}

/// The maximal runs of non-whitespace in `s` (`str::split_whitespace`).
pub open spec fn words(s: Seq<char>) -> Seq<Seq<char>> {
    let (ws, cur) = words_state(s);
    if cur.len() > 0 {
        ws.push(cur)
    } else {
        ws
    }
}

/// Upper case of one character (`char::to_uppercase`, possibly several characters).
pub uninterp spec fn uppercase(c: char) -> Seq<char>;

/// A word with its first character upper-cased.
pub open spec fn capitalize(w: Seq<char>) -> Seq<char> {
    if w.len() == 0 {
        w
    } else {
        uppercase(w[0]) + w.drop_first()
    }
}

/// `"My_Awesome_Mod"` becomes `"My Awesome Mod"`: `_` and `-` become spaces,
/// words are capitalised and joined by single spaces.
pub open spec fn display_name(folder: Seq<char>) -> Seq<char> {
    let spaced = replace_char(replace_char(folder, '_', ' '), '-', ' ');
    join(words(spaced).map_values(|w: Seq<char>| capitalize(w)), seq![' '])
}

/// `char::to_uppercase`, whose characters are named `uppercase`.
#[verifier::external_body]
fn upper_char(c: char) -> (r: Vec<char>)
    ensures
        r@ == uppercase(c),
{
    c.to_uppercase().collect()
}

pub proof fn lemma_strip_all_start_skip(s: Seq<char>, c: char, i: int)
    requires
        0 <= i <= s.len(),
        forall|k: int| 0 <= k < i ==> #[trigger] s[k] == c,
    ensures
        strip_all_start(s, c) == strip_all_start(s.skip(i), c),
    decreases i,
{
    if i > 0 {
        assert(s.drop_first().skip(i - 1) =~= s.skip(i));
        assert forall|k: int| 0 <= k < i - 1 implies #[trigger] s.drop_first()[k] == c by {
            assert(s.drop_first()[k] == s[k + 1]);
        }
        lemma_strip_all_start_skip(s.drop_first(), c, i - 1);
    } else {
        assert(s.skip(0) =~= s);
    }
}

/// `m` is the listing of mod folder `folder` at position `pos` of the sorted list.
pub open spec fn detected_record(m: crate::models::Mod, folder: Seq<char>, enabled: bool, pos: int) -> bool {
    &&& m.id@ == folder
    &&& m.name@ == display_name(folder)
    &&& m.version@.len() == 0
    &&& m.author@.len() == 0
    &&& m.description@.len() == 0
    &&& m.enabled == enabled
    &&& m.load_order == pos as i32
    &&& m.dependencies@.len() == 0
    &&& m.conflicts@.len() == 0
    &&& m.last_updated@.len() == 0
}

/// The mod folders among a listing, special folders left out.
pub open spec fn mod_folders(entries: Seq<(String, bool)>) -> Seq<Seq<char>> {
    crate::services::mod_manager::dir_names(entries, |n: Seq<char>| !special_folder(lowercase(n)))
}

pub struct ModDetector;

impl ModDetector {
    /// Parse a single line of `modlist.txt`: `+Name` is enabled, `-Name` is
    /// disabled. Returns the name of an enabled mod, `None` otherwise.
    pub fn parse_modlist_line(line: &str) -> (r: Option<String>)
        ensures
            match r {
                Some(n) => spec_parse_modlist_line(line@) == Some(n@),
                None => spec_parse_modlist_line(line@) is None,
            },
    {
        let t = trimmed_str(line);
        if t.len() == 0 || t[0] != '+' {
            return None;
        }
        let mut i: usize = 0;
        while i < t.len() && t[i] == '+'
            invariant
                i <= t@.len(),
                forall|k: int| 0 <= k < i ==> #[trigger] t@[k] == '+',
            decreases t@.len() - i,
        {
            i += 1;
        }
        proof {
            lemma_strip_all_start_skip(t@, '+', i as int);
            assert(t@.skip(i as int) =~= t@.subrange(i as int, t@.len() as int));
        }
        let rest = slice_of(&t, i, t.len());
        let name = trimmed(&rest);
        if name.len() == 0 {
            None
        } else {
            Some(string_of(&name))
        }
    }

    /// Whether a folder (compared in lower case) is not a mod.
    pub fn is_special_folder(name: &str) -> (b: bool)
        ensures
            b == special_folder(lowercase(name@)),
    {
        let n = chars_of(name);
        let l = lower_chars(&n);
        eq_str(&l, "fallen world fomod resources") || eq_str(&l, "fallen world optional mods")
            || eq_str(&l, "fomod resources") || eq_str(&l, "optional mods") || eq_str(&l, "overwrite")
            || eq_str(&l, "downloads") || eq_str(&l, "backup") || eq_str(&l, ".git") || eq_str(&l, ".hg")
            || eq_str(&l, ".svn") || eq_str(&l, "._") || eq_str(&l, "__pycache__") || eq_str(&l, ".venv")
            || eq_str(&l, "node_modules")
    }

    /// The words of `s` (`str::split_whitespace`).
    fn split_words(s: &[char]) -> (r: Vec<Vec<char>>)
        ensures
            views(r@) == words(s@),
    {
        let mut r: Vec<Vec<char>> = Vec::new();
        let mut cur: Vec<char> = Vec::new();
        let mut i: usize = 0;
        assert(s@.take(0) =~= Seq::<char>::empty());
        while i < s.len()
            invariant
                i <= s@.len(),
                (views(r@), cur@) == words_state(s@.take(i as int)),
            decreases s@.len() - i,
        {
            let c = s[i];
            proof {
                assert(s@.take(i + 1).drop_last() =~= s@.take(i as int));
                assert(s@.take(i + 1).last() == c);
            }
            if is_whitespace(c) {
                if cur.len() > 0 {
                    let ghost before = views(r@);
                    let ghost cv = cur@;
                    r.push(cur);
                    cur = Vec::new();
                    assert(views(r@) =~= before.push(cv));
                    assert(cur@ =~= Seq::<char>::empty());
                }
            } else {
                cur.push(c);
            }
            i += 1;
        }
        assert(s@.take(s@.len() as int) =~= s@);
        if cur.len() > 0 {
            let ghost before = views(r@);
            let ghost cv = cur@;
            r.push(cur);
            assert(views(r@) =~= before.push(cv));
        }
        r
    }

    /// Convert a folder name to a display name:
    /// `"My_Awesome_Mod"` becomes `"My Awesome Mod"`.
    pub fn folder_to_display_name(folder: &str) -> (r: String)
        ensures
            r@ == display_name(folder@),
    {
        let f = chars_of(folder);
        let spaced = replace_ch(&replace_ch(&f, '_', ' '), '-', ' ');
        let ws = Self::split_words(&spaced);
        let ghost caps = words(spaced@).map_values(|w: Seq<char>| capitalize(w));
        let mut out: Vec<char> = Vec::new();
        let mut i: usize = 0;
        while i < ws.len()
            invariant
                i <= ws@.len(),
                views(ws@) == words(spaced@),
                caps == words(spaced@).map_values(|w: Seq<char>| capitalize(w)),
                out@ == join(caps.take(i as int), seq![' ']),
            decreases ws@.len() - i,
        {
            let w = &ws[i];
            assert(w@ == words(spaced@)[i as int]);
            if i > 0 {
                out.push(' ');
            }
            if w.len() > 0 {
                let up = upper_char(w[0]);
                push_all(&mut out, &up);
                let tail = slice_of(w, 1, w.len());
                push_all(&mut out, &tail);
                assert(w@.drop_first() =~= w@.subrange(1, w@.len() as int));
            }
            proof {
                assert(caps.take(i + 1).drop_last() =~= caps.take(i as int));
                assert(caps.take(i + 1).last() == capitalize(w@));
                if i == 0 {
                    assert(caps.take(1) =~= seq![capitalize(w@)]);
                }
            }
            i += 1;
        }
        assert(caps.take(ws@.len() as int) =~= caps);
        string_of(&out)
    }

    /// The mods of a mods folder, from its listing `entries` (name, is a
    /// folder) and the enabled mods of the active profile: one mod per
    /// folder that is not special, enabled mods first, then by display name
    /// (stable), numbered by position.
    pub fn list_mods(entries: &Vec<(String, bool)>, enabled_mods: &[String]) -> (r: Vec<crate::models::Mod>)
        ensures
            ({
                let folders = mod_folders(entries@);
                let flags = folders.map_values(|f: Seq<char>| strs(enabled_mods@).contains(f));
                let names = folders.map_values(|f: Seq<char>| display_name(f));
                &&& r@.len() == folders.len()
                &&& exists|p: Seq<usize>|
                    #[trigger] stable_order_of(flags, names, p) && forall|j: int|
                        0 <= j < r@.len() ==> detected_record(#[trigger] r@[j], folders[p[j] as int], flags[p[j] as int], j)
            }),
    {
        let folders = crate::services::mod_manager::collect_dirs(entries, false);
        let ghost fv = views(folders@);
        let n = folders.len();
        let mut flags: Vec<bool> = Vec::new();
        let mut names: Vec<Vec<char>> = Vec::new();
        let mut k: usize = 0;
        while k < n
            invariant
                k <= n == folders@.len(),
                fv == views(folders@),
                flags@ == fv.take(k as int).map_values(|f: Seq<char>| strs(enabled_mods@).contains(f)),
                views(names@) == fv.take(k as int).map_values(|f: Seq<char>| display_name(f)),
            decreases n - k,
        {
            let f = &folders[k];
            let ghost bf = flags@;
            let ghost bn = views(names@);
            flags.push(crate::services::load_order_validator::listed(enabled_mods, f));
            names.push(chars_of(Self::folder_to_display_name(string_of(f).as_str()).as_str()));
            assert(fv.take(k + 1) =~= fv.take(k as int).push(fv[k as int]));
            assert(flags@ =~= fv.take(k + 1).map_values(|f: Seq<char>| strs(enabled_mods@).contains(f)));
            assert(views(names@) =~= bn.push(display_name(fv[k as int])));
            assert(views(names@) =~= fv.take(k + 1).map_values(|f: Seq<char>| display_name(f)));
            k += 1;
        }
        assert(fv.take(n as int) =~= fv);
        let p = stable_order(&flags, &names);
        let mut r: Vec<crate::models::Mod> = Vec::new();
        let mut j: usize = 0;
        while j < n
            invariant
                j <= n == folders@.len() == p@.len() == flags@.len(),
                fv == views(folders@),
                forall|t: int| 0 <= t < p@.len() ==> p@[t] < n,
                r@.len() == j,
                forall|t: int|
                    0 <= t < j ==> detected_record(#[trigger] r@[t], fv[p@[t] as int], flags@[p@[t] as int], t),
            decreases n - j,
        {
            let f = &folders[p[j]];
            let pos = #[verifier::truncate] (j as i32);
            r.push(
                crate::models::Mod {
                    id: string_of(f),
                    name: Self::folder_to_display_name(string_of(f).as_str()),
                    version: String::new(),
                    author: String::new(),
                    description: String::new(),
                    enabled: flags[p[j]],
                    load_order: pos,
                    dependencies: Vec::new(),
                    conflicts: Vec::new(),
                    last_updated: String::new(),
                },
            );
            j += 1;
        }
        proof {
            assert(fv =~= mod_folders(entries@));
            let flg = fv.map_values(|f: Seq<char>| strs(enabled_mods@).contains(f));
            let nms = fv.map_values(|f: Seq<char>| display_name(f));
            assert(flags@ =~= flg);
            assert(views(names@) =~= nms);
            assert(stable_order_of(flg, nms, p@));
            assert forall|j: int| 0 <= j < r@.len() implies detected_record(#[trigger] r@[j], fv[p@[j] as int], flg[p@[j] as int], j) by {
                assert(flags@[p@[j] as int] == flg[p@[j] as int]);
            }
        }
        r
    }

    /// The enabled mods of a `modlist.txt`, in file order.
    pub fn enabled_mods(content: &str) -> (r: Vec<String>)
        ensures
            r@.map_values(|s: String| s@) == filter_some(lines(content@), |l: Seq<char>| spec_parse_modlist_line(l)),
    {
        let c = chars_of(content);
        let ls = split_lines(&c);
        let mut r: Vec<String> = Vec::new();
        let mut i: usize = 0;
        let ghost f = |l: Seq<char>| spec_parse_modlist_line(l);
        assert(views(ls@).take(0) =~= Seq::<Seq<char>>::empty());
        while i < ls.len()
            invariant
                i <= ls@.len(),
                views(ls@) == lines(content@),
                f == |l: Seq<char>| spec_parse_modlist_line(l),
                r@.map_values(|s: String| s@) == filter_some(views(ls@).take(i as int), f),
            decreases ls@.len() - i,
        {
            let line = string_of(&ls[i]);
            let ghost before = r@.map_values(|s: String| s@);
            proof {
                assert(views(ls@).take(i + 1).drop_last() =~= views(ls@).take(i as int));
                assert(views(ls@).take(i + 1).last() == ls@[i as int]@);
            }
            match Self::parse_modlist_line(line.as_str()) {
                Some(n) => {
                    r.push(n);
                    assert(r@.map_values(|s: String| s@) =~= before.push(r@.last()@));
                },
                None => {},
            }
            i += 1;
        }
        assert(views(ls@).take(ls@.len() as int) =~= views(ls@));
        r
    }

    /// The load order of a `modlist.txt`: every `+`/`-` entry, in file order.
    /// Without a mod list (no MO2 instance or profile) the order is empty.
    pub fn get_load_order(modlist: Option<&str>) -> (r: Vec<String>)
        ensures
            match modlist {
                Some(c) => r@.map_values(|s: String| s@) == filter_some(lines(c@), |l: Seq<char>| load_order_entry(l)),
                None => r@.len() == 0,
            },
    {
        let content = match modlist {
            Some(c) => c,
            None => return Vec::new(),
        };
        let c = chars_of(content);
        let ls = split_lines(&c);
        let mut r: Vec<String> = Vec::new();
        let mut i: usize = 0;
        let ghost f = |l: Seq<char>| load_order_entry(l);
        assert(views(ls@).take(0) =~= Seq::<Seq<char>>::empty());
        while i < ls.len()
            invariant
                i <= ls@.len(),
                views(ls@) == lines(content@),
                f == |l: Seq<char>| load_order_entry(l),
                r@.map_values(|s: String| s@) == filter_some(views(ls@).take(i as int), f),
            decreases ls@.len() - i,
        {
            let t = trimmed(&ls[i]);
            let ghost before = r@.map_values(|s: String| s@);
            proof {
                assert(views(ls@).take(i + 1).drop_last() =~= views(ls@).take(i as int));
                assert(views(ls@).take(i + 1).last() == ls@[i as int]@);
            }
            if t.len() > 0 && (t[0] == '+' || t[0] == '-') {
                let name = trimmed(&slice_of(&t, 1, t.len()));
                assert(t@.drop_first() =~= t@.subrange(1, t@.len() as int));
                if name.len() > 0 {
                    r.push(string_of(&name));
                    assert(r@.map_values(|s: String| s@) =~= before.push(name@));
                }
            }
            i += 1;
        }
        assert(views(ls@).take(ls@.len() as int) =~= views(ls@));
        r
    }

    /// The installed mods among the given mod folders: special folders are
    /// skipped; id and name are the folder name, the version is "1.0.0".
    #[verifier::spinoff_prover]
    pub fn get_installed_mod_list(folders: &[String]) -> (r: Vec<SimpleMod>)
        ensures
            r@.map_values(|m: SimpleMod| m.id@) == folders@.map_values(|f: String| f@).filter(
                |f: Seq<char>| !special_folder(lowercase(f)),
            ),
            named_by_folder(r@),
    {
        let mut r: Vec<SimpleMod> = Vec::new();
        let ghost fv = folders@.map_values(|f: String| f@);
        let ghost keep = |f: Seq<char>| !special_folder(lowercase(f));
        let mut i: usize = 0;
        assert(fv.take(0).filter(keep) =~= Seq::<Seq<char>>::empty());
        while i < folders.len()
            invariant
                i <= folders@.len(),
                fv == folders@.map_values(|f: String| f@),
                keep == |f: Seq<char>| !special_folder(lowercase(f)),
                r@.map_values(|m: SimpleMod| m.id@) == fv.take(i as int).filter(keep),
                named_by_folder(r@),
            decreases folders@.len() - i,
        {
            let name = &folders[i];
            let ghost before = r@.map_values(|m: SimpleMod| m.id@);
            proof {
                assert(fv.take(i + 1).drop_last() =~= fv.take(i as int));
                assert(fv.take(i + 1).last() == name@);
                assert(fv.take(i + 1).filter(keep) == if keep(name@) {
                    fv.take(i as int).filter(keep).push(name@)
                } else {
                    fv.take(i as int).filter(keep)
                }) by {
                    reveal_with_fuel(Seq::<Seq<char>>::filter, 1);
                }
            }
            if !Self::is_special_folder(name.as_str()) {
                let m = SimpleMod { id: name.clone(), name: name.clone(), version: "1.0.0".to_owned() };
                assert(m.name@ == m.id@ && m.version@ == "1.0.0"@);
                let ghost r0 = r@;
                r.push(m);
                assert forall|k: int| 0 <= k < r@.len() implies #[trigger] r@[k].name@ == r@[k].id@
                    && r@[k].version@ == "1.0.0"@ by {
                    assert(named_by_folder(r0));
                    if k < r0.len() {
                        assert(r@[k] == r0[k]);
                    } else {
                        assert(r@[k] == m);
                    }
                }
                assert(named_by_folder(r@));
                assert(r@.map_values(|m: SimpleMod| m.id@) =~= before.push(name@));
            }
            i += 1;
        }
        assert(fv.take(folders@.len() as int) =~= fv);
        r
    }
}

} // verus!
