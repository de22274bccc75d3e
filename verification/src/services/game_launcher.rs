//! Launching the game and Mod Organizer 2: where `f4se_loader.exe` is, which
//! MO2 executable starts F4SE, and what to start with which arguments. The
//! caller checks which files exist, starts the planned process and reports
//! how that went through `launch_outcome`.
use vstd::prelude::*;
use crate::models::OperationResult;
use crate::services::load_order_validator::{join_path, join_path_exec, listed, push_joined};
use crate::services::path_discovery::{unwrap_qt, PathDiscoveryService};
use crate::services::system_info::BlockingProcess;
use crate::text::{
    ascii_lower, chars_of, contains, contains_str, ends_with_str, eq_ignore_ascii_case, eq_ignore_case_str, eq_str,
    find_ch, has_suffix, join, lines, push_all, push_str, replace_char, replace_ch, slice_of, split_lines,
    starts_with_str, string_of, strs, to_ascii_lower, trim, trimmed, views, find_char,
};

verus! {

// ───────────────────────── finding f4se_loader.exe ─────────────────────────

/// The places `f4se_loader.exe` is looked for, in order: the game folder,
/// its `Fallout4` subfolder, the MO2 folder, and each folder of MO2's `mods`
/// (`mod_dirs` names them in listing order).
pub open spec fn loader_candidates(game_root: Seq<char>, mo2_root: Option<Seq<char>>, mod_dirs: Seq<Seq<char>>) -> Seq<
    Seq<char>,
> {
    let base = seq![
        join_path(game_root, "f4se_loader.exe"@),
        join_path(join_path(game_root, "Fallout4"@), "f4se_loader.exe"@),
    ];
    match mo2_root {
        None => base,
        Some(m) => base.push(join_path(m, "f4se_loader.exe"@)) + mod_dirs.map_values(
            |d: Seq<char>| join_path(join_path(join_path(m, "mods"@), d), "f4se_loader.exe"@),
        ),
    }
}

/// The first of `cands` that exists.
pub open spec fn first_existing(cands: Seq<Seq<char>>, existing: Seq<Seq<char>>) -> Option<Seq<char>>
    decreases cands.len(),
{
    if cands.len() == 0 {
        None
    } else if existing.contains(cands[0]) {
        Some(cands[0])
    } else {
        first_existing(cands.drop_first(), existing)
    }
}

pub open spec fn opt_view(o: Option<String>) -> Option<Seq<char>> {
    match o {
        Some(s) => Some(s@),
        None => None,
    }
}

// ───────────────────────── MO2 custom executables ─────────────────────────

/// An entry of `[customExecutables]`: (is a title, index, value).
pub open spec fn exe_field(line: Seq<char>) -> Option<(bool, Seq<char>, Seq<char>)> {
    let t = trim(line);
    match find_char(t, '=') {
        None => None,
        Some(e) => {
            let key = trim(t.take(e));
            match find_char(key, '\\') {
                None => None,
                Some(b) => {
                    let field = ascii_lower(key.skip(b + 1));
                    let value = unwrap_qt(trim(t.skip(e + 1)));
                    if field == "title"@ {
                        Some((true, key.take(b), value))
                    } else if field == "binary"@ {
                        Some((false, key.take(b), value))
                    } else {
                        None
                    }
                },
            }
        },
    }
}

/// A line that opens a section.
pub open spec fn is_header(t: Seq<char>) -> bool {
    t.len() > 0 && t[0] == '[' && t.last() == ']'
}

/// The entries of `[customExecutables]` in `ls`, in file order, with
/// whether the section is open after `ls`.
pub open spec fn exe_fields(ls: Seq<Seq<char>>) -> (Seq<(bool, Seq<char>, Seq<char>)>, bool)
    decreases ls.len(),
{
    if ls.len() == 0 {
        (seq![], false)
    } else {
        let (fs, open) = exe_fields(ls.drop_last());
        let t = trim(ls.last());
        if is_header(t) {
            (fs, eq_ignore_ascii_case(t, "[customExecutables]"@))
        } else if open && exe_field(ls.last()) is Some {
            (fs.push(exe_field(ls.last())->0), open)
        } else {
            (fs, open)
        }
    }
}

/// The value of the last entry of kind `title` for index `idx`.
pub open spec fn last_value(fs: Seq<(bool, Seq<char>, Seq<char>)>, title: bool, idx: Seq<char>) -> Option<Seq<char>>
    decreases fs.len(),
{
    if fs.len() == 0 {
        None
    } else if fs.last().0 == title && fs.last().1 == idx {
        Some(fs.last().2)
    } else {
        last_value(fs.drop_last(), title, idx)
    }
}

/// A binary path that ends in `f4se_loader.exe` (ignoring case and slashes).
pub open spec fn is_f4se_binary(b: Seq<char>) -> bool {
    has_suffix(replace_char(ascii_lower(b), '\\', '/'), "f4se_loader.exe"@)
}

/// Index `idx` names an executable whose binary is `f4se_loader.exe` and
/// whose title is not empty.
pub open spec fn loader_index(fs: Seq<(bool, Seq<char>, Seq<char>)>, idx: Seq<char>) -> bool {
    match (last_value(fs, false, idx), last_value(fs, true, idx)) {
        (Some(b), Some(t)) => is_f4se_binary(b) && t.len() > 0,
        _ => false,
    }
}

/// Index `idx` names an executable whose title mentions F4SE.
pub open spec fn f4se_index(fs: Seq<(bool, Seq<char>, Seq<char>)>, idx: Seq<char>) -> bool {
    match last_value(fs, true, idx) {
        Some(t) => contains(ascii_lower(t), "f4se"@),
        None => false,
    }
}

/// The title of an executable whose binary is `f4se_loader.exe`.
pub open spec fn loader_title(fs: Seq<(bool, Seq<char>, Seq<char>)>, t: Seq<char>) -> bool {
    exists|idx: Seq<char>| #[trigger] loader_index(fs, idx) && last_value(fs, true, idx) == Some(t)
}

/// The title of an executable that mentions F4SE.
pub open spec fn f4se_title(fs: Seq<(bool, Seq<char>, Seq<char>)>, t: Seq<char>) -> bool {
    exists|idx: Seq<char>| #[trigger] f4se_index(fs, idx) && last_value(fs, true, idx) == Some(t)
}

pub open spec fn field_views(v: Seq<(bool, Vec<char>, Vec<char>)>) -> Seq<(bool, Seq<char>, Seq<char>)> {
    v.map_values(|r: (bool, Vec<char>, Vec<char>)| (r.0, r.1@, r.2@))
}

/// An index with a value of the given kind is named by one of the entries.
proof fn lemma_last_value_at(fs: Seq<(bool, Seq<char>, Seq<char>)>, title: bool, idx: Seq<char>)
    requires
        last_value(fs, title, idx) is Some,
    ensures
        exists|j: int| 0 <= j < fs.len() && #[trigger] fs[j].0 == title && fs[j].1 == idx,
    decreases fs.len(),
{
    if fs.last().0 == title && fs.last().1 == idx {
        assert(fs[fs.len() - 1].0 == title);
    } else {
        lemma_last_value_at(fs.drop_last(), title, idx);
        let j = choose|j: int| 0 <= j < fs.drop_last().len() && #[trigger] fs.drop_last()[j].0 == title && fs.drop_last()[j].1 == idx;
        assert(fs[j] == fs.drop_last()[j]);
    }
}

// ───────────────────────── launch plans ─────────────────────────

/// A process to start: program, arguments, working folder, the message when
/// it started and the start of the message when it did not.
pub struct LaunchPlan {
    pub program: String,
    pub args: Vec<String>,
    pub dir: Option<String>,
    pub success: String,
    pub failure: String,
}

pub open spec fn plan_view(p: LaunchPlan) -> (Seq<char>, Seq<Seq<char>>, Option<Seq<char>>, Seq<char>, Seq<char>) {
    (p.program@, strs(p.args@), opt_view(p.dir), p.success@, p.failure@)
}

pub open spec fn planned(r: Result<LaunchPlan, OperationResult>) -> Result<
    (Seq<char>, Seq<Seq<char>>, Option<Seq<char>>, Seq<char>, Seq<char>),
    Seq<char>,
> {
    match r {
        Ok(p) => Ok(plan_view(p)),
        Err(o) => Err(o.message@),
    }
}

pub open spec fn blocked_msg(names: Seq<Seq<char>>) -> Seq<char> {
    "Cannot launch: "@ + join(names, ", "@) + " running. Please close these processes first."@
}

pub open spec fn f4se_missing_msg() -> Seq<char> {
    "F4SE not found. Configure an 'F4SE' executable in MO2, or verify f4se_loader.exe is installed."@
}

pub open spec fn process_names(ps: Seq<BlockingProcess>) -> Seq<Seq<char>> {
    ps.map_values(|p: BlockingProcess| p.name@)
}

/// How the game is started: refused while blocking processes run; through
/// MO2 (its profile, then its F4SE shortcut or else the loader) when
/// `ModOrganizer.exe` exists; else the loader directly; else `Fallout4.exe`.
pub open spec fn game_plan(
    blocking: Seq<Seq<char>>,
    game_root: Seq<char>,
    mo2_root: Option<Seq<char>>,
    mo2_profile: Option<Seq<char>>,
    shortcut: Option<Seq<char>>,
    mod_dirs: Seq<Seq<char>>,
    existing: Seq<Seq<char>>,
) -> Result<(Seq<char>, Seq<Seq<char>>, Option<Seq<char>>, Seq<char>, Seq<char>), Seq<char>> {
    if blocking.len() > 0 {
        Err(blocked_msg(blocking))
    } else if mo2_root is Some && existing.contains(join_path(mo2_root->0, "ModOrganizer.exe"@)) {
        let root = mo2_root->0;
        let exe = join_path(root, "ModOrganizer.exe"@);
        let pargs: Seq<Seq<char>> = match mo2_profile {
            Some(p) => seq!["-p"@, p],
            None => seq![],
        };
        match shortcut {
            Some(t) => Ok(
                (
                    exe,
                    pargs.push("moshortcut://:"@ + t),
                    Some(root),
                    "Game launched through MO2 (MO2 shortcut '"@ + t + "')"@,
                    "Failed to launch through MO2"@,
                ),
            ),
            None => match first_existing(loader_candidates(game_root, mo2_root, mod_dirs), existing) {
                Some(f) => Ok(
                    (
                        exe,
                        pargs.push(f),
                        Some(root),
                        "Game launched through MO2 (f4se_loader.exe via MO2 VFS)"@,
                        "Failed to launch through MO2"@,
                    ),
                ),
                None => Err(f4se_missing_msg()),
            },
        }
    } else {
        match first_existing(loader_candidates(game_root, mo2_root, mod_dirs), existing) {
            Some(f) => Ok(
                (
                    f,
                    seq![],
                    Some(game_root),
                    "Game launched via F4SE (MO2 not found — mods may not be active)"@,
                    "Failed to launch F4SE"@,
                ),
            ),
            None => Ok(
                (
                    game_root + "\\Fallout4.exe"@,
                    seq![],
                    Some(game_root),
                    "Game launched (F4SE not found, using Fallout4.exe)"@,
                    "Failed to launch game"@,
                ),
            ),
        }
    }
}

// ───────────────────────── helpers ─────────────────────────

fn opt_string(o: Option<&str>) -> (r: Option<String>)
    ensures
        opt_view(r) == match o {
            Some(s) => Some(s@),
            None => None,
        },
{
    match o {
        Some(s) => Some(s.to_string()),
        None => None,
    }
}

fn fail(message: String) -> (r: OperationResult)
    ensures
        !r.success,
        r.message@ == message@,
{
    OperationResult { success: false, message }
}


/// The entry of `[customExecutables]` a line holds.
fn parse_exe_field(line: &Vec<char>) -> (r: Option<(bool, Vec<char>, Vec<char>)>)
    ensures
        match r {
            Some(f) => exe_field(line@) == Some((f.0, f.1@, f.2@)),
            None => exe_field(line@) is None,
        },
{
    let t = trimmed(line);
    let e = match find_ch(&t, '=') {
        None => return None,
        Some(e) => e,
    };
    proof {
        crate::text::lemma_find(t@, seq!['=']);
        assert(crate::text::occurs_at(t@, seq!['='], e as int));
        assert(e + 1 <= t@.len());
    }
    let key = trimmed(&slice_of(&t, 0, e));
    assert(t@.subrange(0, e as int) =~= t@.take(e as int));
    let b = match find_ch(&key, '\\') {
        None => return None,
        Some(b) => b,
    };
    proof {
        crate::text::lemma_find(key@, seq!['\\']);
        assert(crate::text::occurs_at(key@, seq!['\\'], b as int));
        assert(b + 1 <= key@.len());
    }
    let kl = key.len();
    let field = to_ascii_lower(&slice_of(&key, b + 1, kl));
    assert(key@.subrange(b + 1, key@.len() as int) =~= key@.skip(b + 1));
    let tl = t.len();
    let raw = trimmed(&slice_of(&t, e + 1, tl));
    assert(t@.subrange(e + 1, t@.len() as int) =~= t@.skip(e + 1));
    let value = chars_of(PathDiscoveryService::unwrap_qt_value(string_of(&raw).as_str()).as_str());
    let idx = slice_of(&key, 0, b);
    assert(key@.subrange(0, b as int) =~= key@.take(b as int));
    if eq_str(&field, "title") {
        Some((true, idx, value))
    } else if eq_str(&field, "binary") {
        Some((false, idx, value))
    } else {
        None
    }
}

/// The entries of `[customExecutables]` in a `ModOrganizer.ini`.
fn parse_exe_fields(content: &str) -> (r: Vec<(bool, Vec<char>, Vec<char>)>)
    ensures
        field_views(r@) == exe_fields(lines(content@)).0,
{
    let cs = chars_of(content);
    let ls = split_lines(&cs);
    let ghost lv = views(ls@);
    let mut r: Vec<(bool, Vec<char>, Vec<char>)> = Vec::new();
    let mut open = false;
    let mut i: usize = 0;
    assert(lv.take(0) =~= Seq::<Seq<char>>::empty());
    assert(field_views(r@) =~= Seq::<(bool, Seq<char>, Seq<char>)>::empty());
    while i < ls.len()
        invariant
            i <= ls@.len(),
            lv == views(ls@),
            lv == lines(content@),
            (field_views(r@), open) == exe_fields(lv.take(i as int)),
        decreases ls@.len() - i,
    {
        assert(lv.take(i + 1).drop_last() =~= lv.take(i as int));
        assert(lv.take(i + 1).last() == ls@[i as int]@);
        let t = trimmed(&ls[i]);
        if t.len() > 0 && t[0] == '[' && t[t.len() - 1] == ']' {
            open = eq_ignore_case_str(&t, "[customExecutables]");
        } else if open {
            match parse_exe_field(&ls[i]) {
                Some(f) => {
                    let ghost before = field_views(r@);
                    let ghost fv = (f.0, f.1@, f.2@);
                    r.push(f);
                    assert(field_views(r@) =~= before.push(fv));
                },
                None => {},
            }
        }
        i += 1;
    }
    assert(lv.take(ls@.len() as int) =~= lv);
    r
}

/// Position of the last entry of kind `title` for index `idx`.
fn last_of(fs: &Vec<(bool, Vec<char>, Vec<char>)>, title: bool, idx: &Vec<char>) -> (r: Option<usize>)
    ensures
        match r {
            Some(j) => j < fs@.len() && last_value(field_views(fs@), title, idx@) == Some(fs@[j as int].2@),
            None => last_value(field_views(fs@), title, idx@) is None,
        },
{
    let ghost fv = field_views(fs@);
    let mut j: usize = fs.len();
    assert(fv.take(fs@.len() as int) =~= fv);
    while j > 0
        invariant
            j <= fs@.len(),
            fv == field_views(fs@),
            last_value(fv, title, idx@) == last_value(fv.take(j as int), title, idx@),
        decreases j,
    {
        assert(fv.take(j as int).drop_last() =~= fv.take(j - 1));
        assert(fv.take(j as int).last() == fv[j - 1]);
        if fs[j - 1].0 == title && crate::text::eq_chars(&fs[j - 1].1, idx) {
            return Some(j - 1);
        }
        j -= 1;
    }
    None
}

/// Whether a binary path ends in `f4se_loader.exe`, ignoring case and slashes.
fn f4se_binary(b: &Vec<char>) -> (r: bool)
    ensures
        r == is_f4se_binary(b@),
{
    ends_with_str(&replace_ch(&to_ascii_lower(b), '\\', '/'), "f4se_loader.exe")
}

pub struct GameLauncher;

impl GameLauncher {
    /// The first candidate `f4se_loader.exe` that exists (`existing` lists
    /// the candidate paths found on disk).
    pub fn find_f4se_loader_in(game_root: &str, mo2_root: Option<&str>, mod_dirs: &Vec<String>, existing: &[String]) -> (r:
        Option<String>)
        ensures
            opt_view(r) == first_existing(
                loader_candidates(
                    game_root@,
                    match mo2_root {
                        Some(m) => Some(m@),
                        None => None,
                    },
                    strs(mod_dirs@),
                ),
                strs(existing@),
            ),
    {
        let ghost mo = match mo2_root {
            Some(m) => Some(m@),
            None => None,
        };
        let ghost cands = loader_candidates(game_root@, mo, strs(mod_dirs@));
        let mut cs: Vec<Vec<char>> = Vec::new();
        cs.push(join_path_exec(game_root, "f4se_loader.exe"));
        let sub = string_of(&join_path_exec(game_root, "Fallout4"));
        cs.push(join_path_exec(sub.as_str(), "f4se_loader.exe"));
        match mo2_root {
            None => {},
            Some(m) => {
                cs.push(join_path_exec(m, "f4se_loader.exe"));
                let mods = string_of(&join_path_exec(m, "mods"));
                let mut i: usize = 0;
                let ghost base = views(cs@);
                while i < mod_dirs.len()
                    invariant
                        i <= mod_dirs@.len(),
                        mods@ == join_path(m@, "mods"@),
                        views(cs@) == base + strs(mod_dirs@).take(i as int).map_values(
                            |d: Seq<char>| join_path(join_path(join_path(m@, "mods"@), d), "f4se_loader.exe"@),
                        ),
                    decreases mod_dirs@.len() - i,
                {
                    let ghost before = views(cs@);
                    let dir = string_of(&join_path_exec(mods.as_str(), mod_dirs[i].as_str()));
                    cs.push(join_path_exec(dir.as_str(), "f4se_loader.exe"));
                    assert(views(cs@) =~= before.push(
                        join_path(join_path(join_path(m@, "mods"@), mod_dirs@[i as int]@), "f4se_loader.exe"@),
                    ));
                    assert(strs(mod_dirs@).take(i + 1) =~= strs(mod_dirs@).take(i as int).push(mod_dirs@[i as int]@));
                    assert(views(cs@) =~= base + strs(mod_dirs@).take(i + 1).map_values(
                        |d: Seq<char>| join_path(join_path(join_path(m@, "mods"@), d), "f4se_loader.exe"@),
                    ));
                    i += 1;
                }
                assert(strs(mod_dirs@).take(mod_dirs@.len() as int) =~= strs(mod_dirs@));
            },
        }
        assert(views(cs@) =~= cands);
        let mut k: usize = 0;
        assert(cands.skip(0) =~= cands);
        while k < cs.len()
            invariant
                k <= cs@.len(),
                views(cs@) == cands,
                cands == loader_candidates(game_root@, mo, strs(mod_dirs@)),
                mo == match mo2_root {
                    Some(m) => Some(m@),
                    None => None,
                },
                first_existing(cands, strs(existing@)) == first_existing(cands.skip(k as int), strs(existing@)),
            decreases cs@.len() - k,
        {
            assert(cands.skip(k as int)[0] == cands[k as int]);
            assert(cands.skip(k as int).drop_first() =~= cands.skip(k + 1));
            if listed(existing, &cs[k]) {
                return Some(string_of(&cs[k]));
            }
            k += 1;
        }
        None
    }

    /// The `f4se_loader.exe` of a game folder, in the folder or its
    /// `Fallout4` subfolder, if one of them exists.
    pub fn find_f4se_loader(game_root: &str, existing: &[String]) -> (r: Option<String>)
        ensures
            opt_view(r) == first_existing(loader_candidates(game_root@, None, seq![]), strs(existing@)),
    {
        let none: Vec<String> = Vec::new();
        assert(strs(none@) =~= Seq::<Seq<char>>::empty());
        Self::find_f4se_loader_in(game_root, None, &none, existing)
    }

    /// The title of the MO2 executable that starts F4SE, from the
    /// `[customExecutables]` section of `ModOrganizer.ini`: one whose binary
    /// is `f4se_loader.exe`, or else one whose title mentions F4SE. Which of
    /// several such entries is picked is left open.
    pub fn find_mo2_f4se_executable(content: &str) -> (r: Option<String>)
        ensures
            ({
                let fs = exe_fields(lines(content@)).0;
                match r {
                    Some(t) => loader_title(fs, t@) || (!(exists|t2: Seq<char>| loader_title(fs, t2))
                        && f4se_title(fs, t@)),
                    None => !(exists|t: Seq<char>| loader_title(fs, t)) && !(exists|t: Seq<char>| f4se_title(fs, t)),
                }
            }),
    {
        let fs = parse_exe_fields(content);
        let ghost fv = field_views(fs@);
        let n = fs.len();
        let mut j: usize = 0;
        while j < n
            invariant
                j <= n == fs@.len(),
                fv == field_views(fs@),
                fv == exe_fields(lines(content@)).0,
                forall|q: int| 0 <= q < j && !(#[trigger] fv[q]).0 ==> !loader_index(fv, fv[q].1),
            decreases n - j,
        {
            if !fs[j].0 {
                let idx = &fs[j].1;
                match last_of(&fs, false, idx) {
                    Some(bj) => {
                        if f4se_binary(&fs[bj].2) {
                            match last_of(&fs, true, idx) {
                                Some(tj) => {
                                    if fs[tj].2.len() > 0 {
                                        let ghost t = fs@[tj as int].2@;
                                        assert(loader_index(fv, idx@));
                                        assert(loader_title(fv, t));
                                        return Some(string_of(&fs[tj].2));
                                    }
                                },
                                None => {},
                            }
                        }
                    },
                    None => {},
                }
            }
            j += 1;
        }
        proof {
            assert forall|t: Seq<char>| !loader_title(fv, t) by {
                if loader_title(fv, t) {
                    let idx = choose|idx: Seq<char>| #[trigger] loader_index(fv, idx) && last_value(fv, true, idx) == Some(t);
                    lemma_last_value_at(fv, false, idx);
                    let q = choose|q: int| 0 <= q < fv.len() && #[trigger] fv[q].0 == false && fv[q].1 == idx;
                    assert(!(fv[q]).0);
                }
            }
        }
        let mut k: usize = 0;
        while k < n
            invariant
                k <= n == fs@.len(),
                fv == field_views(fs@),
                fv == exe_fields(lines(content@)).0,
                forall|t: Seq<char>| !loader_title(fv, t),
                forall|q: int| 0 <= q < k && (#[trigger] fv[q]).0 ==> !f4se_index(fv, fv[q].1),
            decreases n - k,
        {
            if fs[k].0 {
                match last_of(&fs, true, &fs[k].1) {
                    Some(tj) => {
                        if contains_str(&to_ascii_lower(&fs[tj].2), "f4se") {
                            let ghost t = fs@[tj as int].2@;
                            assert(f4se_index(fv, fs@[k as int].1@));
                            assert(f4se_title(fv, t));
                            return Some(string_of(&fs[tj].2));
                        }
                    },
                    None => {},
                }
            }
            k += 1;
        }
        proof {
            assert forall|t: Seq<char>| !f4se_title(fv, t) by {
                if f4se_title(fv, t) {
                    let idx = choose|idx: Seq<char>| #[trigger] f4se_index(fv, idx) && last_value(fv, true, idx) == Some(t);
                    lemma_last_value_at(fv, true, idx);
                    let q = choose|q: int| 0 <= q < fv.len() && #[trigger] fv[q].0 == true && fv[q].1 == idx;
                    assert((fv[q]).0);
                }
            }
        }
        None
    }

    /// What to start to play, refused while `blocking` processes run.
    /// Through MO2 when its `ModOrganizer.exe` exists (with the profile, then
    /// the F4SE `shortcut` title or else the loader MO2 finds); otherwise
    /// `f4se_loader.exe` directly; otherwise `Fallout4.exe`. `existing` lists
    /// the candidate paths found on disk, `mod_dirs` the folders of MO2's mods.
    pub fn launch_game(
        blocking: &[BlockingProcess],
        game_root: &str,
        mo2_root: Option<&str>,
        mo2_profile: Option<&str>,
        shortcut: Option<&str>,
        mod_dirs: &Vec<String>,
        existing: &[String],
    ) -> (r: Result<LaunchPlan, OperationResult>)
        ensures
            r matches Err(o) ==> !o.success,
            planned(r) == game_plan(
                process_names(blocking@),
                game_root@,
                match mo2_root {
                    Some(m) => Some(m@),
                    None => None,
                },
                match mo2_profile {
                    Some(p) => Some(p@),
                    None => None,
                },
                match shortcut {
                    Some(t) => Some(t@),
                    None => None,
                },
                strs(mod_dirs@),
                strs(existing@),
            ),
    {
        if blocking.len() > 0 {
            let mut names: Vec<String> = Vec::new();
            let mut i: usize = 0;
            while i < blocking.len()
                invariant
                    i <= blocking@.len(),
                    strs(names@) == process_names(blocking@).take(i as int),
                decreases blocking@.len() - i,
            {
                let ghost before = strs(names@);
                names.push(string_of(&chars_of(blocking[i].name.as_str())));
                assert(strs(names@) =~= before.push(blocking@[i as int].name@));
                assert(strs(names@) =~= process_names(blocking@).take(i + 1));
                i += 1;
            }
            assert(process_names(blocking@).take(blocking@.len() as int) =~= process_names(blocking@));
            let mut m: Vec<char> = Vec::new();
            push_str(&mut m, "Cannot launch: ");
            push_joined(&mut m, &names, ", ");
            push_str(&mut m, " running. Please close these processes first.");
            return Err(fail(string_of(&m)));
        }
        let mut mo2_ready = false;
        match mo2_root {
            Some(root) => {
                let exe = join_path_exec(root, "ModOrganizer.exe");
                mo2_ready = listed(existing, &exe);
            },
            None => {},
        }
        if mo2_ready {
            let root = mo2_root.unwrap();
            let exe = string_of(&join_path_exec(root, "ModOrganizer.exe"));
            let mut args: Vec<String> = Vec::new();
            match mo2_profile {
                Some(p) => {
                    args.push("-p".to_string());
                    args.push(p.to_string());
                    assert(strs(args@) =~= seq!["-p"@, p@]);
                },
                None => {
                    assert(strs(args@) =~= Seq::<Seq<char>>::empty());
                },
            }
            let ghost pargs = strs(args@);
            match shortcut {
                Some(t) => {
                    let mut a: Vec<char> = Vec::new();
                    push_str(&mut a, "moshortcut://:");
                    push_str(&mut a, t);
                    args.push(string_of(&a));
                    assert(strs(args@) =~= pargs.push("moshortcut://:"@ + t@));
                    let mut ok: Vec<char> = Vec::new();
                    push_str(&mut ok, "Game launched through MO2 (MO2 shortcut '");
                    push_str(&mut ok, t);
                    push_str(&mut ok, "')");
                    return Ok(
                        LaunchPlan {
                            program: exe,
                            args,
                            dir: Some(root.to_string()),
                            success: string_of(&ok),
                            failure: "Failed to launch through MO2".to_string(),
                        },
                    );
                },
                None => {
                    match Self::find_f4se_loader_in(game_root, mo2_root, mod_dirs, existing) {
                        Some(f) => {
                            let ghost fv = f@;
                            args.push(f);
                            assert(strs(args@) =~= pargs.push(fv));
                            return Ok(
                                LaunchPlan {
                                    program: exe,
                                    args,
                                    dir: Some(root.to_string()),
                                    success: "Game launched through MO2 (f4se_loader.exe via MO2 VFS)".to_string(),
                                    failure: "Failed to launch through MO2".to_string(),
                                },
                            );
                        },
                        None => {
                            return Err(
                                fail(
                                    "F4SE not found. Configure an 'F4SE' executable in MO2, or verify f4se_loader.exe is installed.".to_string(),
                                ),
                            );
                        },
                    }
                },
            }
        }
        let none: Vec<String> = Vec::new();
        assert(strs(none@) =~= Seq::<Seq<char>>::empty());
        match Self::find_f4se_loader_in(game_root, mo2_root, mod_dirs, existing) {
            Some(f) => Ok(
                LaunchPlan {
                    program: f,
                    args: none,
                    dir: Some(game_root.to_string()),
                    success: "Game launched via F4SE (MO2 not found — mods may not be active)".to_string(),
                    failure: "Failed to launch F4SE".to_string(),
                },
            ),
            None => {
                let mut exe: Vec<char> = Vec::new();
                push_str(&mut exe, game_root);
                push_str(&mut exe, "\\Fallout4.exe");
                Ok(
                    LaunchPlan {
                        program: string_of(&exe),
                        args: none,
                        dir: Some(game_root.to_string()),
                        success: "Game launched (F4SE not found, using Fallout4.exe)".to_string(),
                        failure: "Failed to launch game".to_string(),
                    },
                )
            },
        }
    }

    /// The game started through Steam, refused while `blocking` processes run.
    pub fn steam_launch(blocking: &[BlockingProcess]) -> (r: Result<LaunchPlan, OperationResult>)
        ensures
            r matches Err(o) ==> !o.success,
            planned(r) == if blocking@.len() > 0 {
                Err(blocked_msg(process_names(blocking@)))
            } else {
                Ok(("steam"@, seq!["steam://run/287860"@], None::<Seq<char>>, "Game launched via Steam"@, "Failed to launch game"@))
            },
    {
        if blocking.len() > 0 {
            let none: Vec<String> = Vec::new();
            assert(strs(none@) =~= Seq::<Seq<char>>::empty());
            return Self::launch_game(blocking, "", None, None, None, &none, &none);
        }
        let mut args: Vec<String> = Vec::new();
        args.push("steam://run/287860".to_string());
        assert(strs(args@) =~= seq!["steam://run/287860"@]);
        Ok(
            LaunchPlan {
                program: "steam".to_string(),
                args,
                dir: None,
                success: "Game launched via Steam".to_string(),
                failure: "Failed to launch game".to_string(),
            },
        )
    }

    /// What to start to open Mod Organizer 2 from its folder, if known and
    /// holding `ModOrganizer.exe` (`existing` lists the paths found on disk).
    pub fn launch_mo2(mo2_root: Option<&str>, existing: &[String]) -> (r: Result<LaunchPlan, OperationResult>)
        ensures
            r matches Err(o) ==> !o.success,
            planned(r) == match mo2_root {
                None => Err("Mod Organizer 2 not found. Set your game path in Settings."@),
                Some(root) => if strs(existing@).contains(join_path(root@, "ModOrganizer.exe"@)) {
                    Ok(
                        (
                            join_path(root@, "ModOrganizer.exe"@),
                            Seq::<Seq<char>>::empty(),
                            Some(root@),
                            "Mod Organizer 2 launched"@,
                            "Failed to launch MO2"@,
                        ),
                    )
                } else {
                    Err("ModOrganizer.exe not found at "@ + root@)
                },
            },
    {
        match mo2_root {
            None => Err(fail("Mod Organizer 2 not found. Set your game path in Settings.".to_string())),
            Some(root) => {
                let exe = join_path_exec(root, "ModOrganizer.exe");
                if listed(existing, &exe) {
                    let args: Vec<String> = Vec::new();
                    assert(strs(args@) =~= Seq::<Seq<char>>::empty());
                    Ok(
                        LaunchPlan {
                            program: string_of(&exe),
                            args,
                            dir: Some(root.to_string()),
                            success: "Mod Organizer 2 launched".to_string(),
                            failure: "Failed to launch MO2".to_string(),
                        },
                    )
                } else {
                    let mut m: Vec<char> = Vec::new();
                    push_str(&mut m, "ModOrganizer.exe not found at ");
                    push_str(&mut m, root);
                    Err(fail(string_of(&m)))
                }
            },
        }
    }

    /// The report of a planned start: its message when the process started,
    /// or its failure message with the error.
    pub fn launch_outcome(plan: &LaunchPlan, spawned: Result<(), String>) -> (r: OperationResult)
        ensures
            r.success == spawned is Ok,
            r.message@ == match spawned {
                Ok(_) => plan.success@,
                Err(e) => plan.failure@ + ": "@ + e@,
            },
    {
        match spawned {
            Ok(_) => OperationResult { success: true, message: string_of(&chars_of(plan.success.as_str())) },
            Err(e) => {
                let mut m: Vec<char> = Vec::new();
                push_str(&mut m, plan.failure.as_str());
                push_str(&mut m, ": ");
                push_str(&mut m, e.as_str());
                fail(string_of(&m))
            },
        }
    }

    /// An MO2 INI value without its `@ByteArray(...)` wrapper and quotes.
    pub fn unwrap_ini_value(value: &str) -> (r: String)
        ensures
            r@ == unwrap_qt(value@),
    {
        PathDiscoveryService::unwrap_qt_value(value)
    }
}

} // verus!
