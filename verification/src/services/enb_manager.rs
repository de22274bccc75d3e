//! The ENB: a read-only default shipped with the FOMOD resources, and one live
//! ENB deployed into the optional-mods folder. This module decides which
//! files move and what the state and the messages become; the caller walks
//! folders, copies and deletes files, and stores the state.
use vstd::prelude::*;
use crate::base64::{base64, encode};
use crate::models::OperationResult;
use crate::services::ini_manager::{header_name, ini_set, is_header, sections_map, IniMap};
use crate::services::game_launcher::opt_view;
use crate::services::load_order_validator::{join_path, join_path_exec};
use crate::string_map::{as_map, lemma_as_map_empty, lemma_as_map_insert, StringMap};
use crate::sort::{dedup, dedup_strings, permutes, sort_strings, sorted};
use crate::format::{decimal, push_decimal};
use crate::text::{
    ascii_lower, chars_of, lower_chars, lowercase, contains, contains_str, eq_ignore_ascii_case, eq_ignore_case_str, eq_str, find,
    find_ch, find_char, join, lemma_find, lines, push_all, push_str, replace_char, slice_of, split,
    split_at_char, split_lines, strip_cr, string_of, strs, to_ascii_lower, replace_ch, trim, trim_start,
    trimmed, views,
};

verus! {

/// Our `enblocal.ini`, compared case- and separator-insensitively.
pub const PROTECTED_ENBLOCAL: &'static str = "root/enblocal.ini";

/// What the launcher remembers about the live ENB.
#[derive(Debug, Clone)]
pub struct EnbState {
    /// "default", "custom" or "none".
    pub active: String,
    pub custom_name: Option<String>,
    /// File name of the copied custom preview within the app data dir.
    pub custom_showcase: Option<String>,
    /// Relative paths the launcher last deployed into the deploy folder.
    pub manifest: Vec<String>,
}

/// Name and preview availability of one ENB.
#[derive(Debug, Clone)]
pub struct EnbInfo {
    pub name: String,
    pub has_showcase: bool,
}

/// One effect switch shown in the ENB preview.
#[derive(Debug, Clone)]
pub struct EnbEffect {
    pub name: String,
    pub enabled: bool,
}

/// A single `enbseries.ini` edit from the configurator.
#[derive(Debug, Clone)]
pub struct EnbIniChange {
    pub section: String,
    pub key: String,
    pub value: String,
}

/// The ENB page's summary.
#[derive(Debug, Clone)]
pub struct EnbStatus {
    pub default: EnbInfo,
    pub custom: Option<EnbInfo>,
    /// "default" or "custom".
    pub active: String,
    pub deploy_path: String,
}

// ───────────────────────── specifications ─────────────────────────

/// A relative path with `/` separators, ASCII lower case.
pub open spec fn norm(rel: Seq<char>) -> Seq<char> {
    ascii_lower(replace_char(rel, '\\', '/'))
}

/// The protected `Root/enblocal.ini`: never copied from a source, never deleted.
pub open spec fn is_enblocal(rel: Seq<char>) -> bool {
    norm(rel) == "root/enblocal.ini"@
}

/// Files that survive a swap: `enblocal.ini` and the ENB wrapper binaries.
pub open spec fn is_kept(rel: Seq<char>) -> bool {
    norm(rel) == "root/enblocal.ini"@ || norm(rel) == "root/d3d11.dll"@ || norm(rel) == "root/d3dcompiler_46e.dll"@
}

/// The part of `rel` after its last `/`.
pub open spec fn base_name(rel: Seq<char>) -> Seq<char> {
    split(rel, '/').last()
}

/// A file of the default ENB folder that is part of the ENB (not the
/// launcher's metadata or preview, not the protected `enblocal.ini`).
pub open spec fn default_part(rel: Seq<char>) -> bool {
    !eq_ignore_ascii_case(base_name(rel), "meta.ini"@) && !eq_ignore_ascii_case(base_name(rel), "Showcase.png"@)
        && !is_enblocal(rel)
}

/// `s` filtered by a predicate, in order.
pub open spec fn keep_if(s: Seq<Seq<char>>, p: spec_fn(Seq<char>) -> bool) -> Seq<Seq<char>>
    decreases s.len(),
{
    if s.len() == 0 {
        seq![]
    } else {
        keep_if(s.drop_last(), p) + if p(s.last()) {
            seq![s.last()]
        } else {
            seq![]
        }
    }
}

/// Where each file of a custom ENB goes: under `Root/` when the folder has
/// ENB files at its top but no `Root/` of its own; the protected
/// `enblocal.ini` is dropped.
pub open spec fn custom_targets(rels: Seq<Seq<char>>, wrap: bool) -> Seq<Seq<char>> {
    keep_if(
        rels.map_values(|r: Seq<char>| if wrap { "Root/"@ + r } else { r }),
        |r: Seq<char>| !is_enblocal(r),
    )
}

/// The files of the default ENB folder that a deploy copies
/// (`collect_default_files`).
pub open spec fn default_files(found: Seq<Seq<char>>) -> Seq<Seq<char>> {
    keep_if(found, |x: Seq<char>| default_part(x))
}

/// The files of a removal list that a swap deletes (`deletable`).
pub open spec fn deleted_files(removal: Seq<Seq<char>>) -> Seq<Seq<char>> {
    keep_if(removal, |x: Seq<char>| !is_kept(x))
}

proof fn lemma_keep_if_all(s: Seq<Seq<char>>, p: spec_fn(Seq<char>) -> bool)
    ensures
        forall|i: int| 0 <= i < keep_if(s, p).len() ==> p(#[trigger] keep_if(s, p)[i]),
    decreases s.len(),
{
    if s.len() > 0 {
        lemma_keep_if_all(s.drop_last(), p);
        let pre = keep_if(s.drop_last(), p);
        let tail = if p(s.last()) {
            seq![s.last()]
        } else {
            seq![]
        };
        assert forall|i: int| 0 <= i < keep_if(s, p).len() implies p(#[trigger] keep_if(s, p)[i]) by {
            assert(keep_if(s, p) == pre + tail);
            if i < pre.len() {
                assert(keep_if(s, p)[i] == pre[i]);
            } else {
                assert(keep_if(s, p)[i] == tail[i - pre.len()]);
            }
        }
    }
}

/// An ENB swap spares the user's files: no file copied into the deploy
/// folder, from a custom ENB (`custom_found`, wrapped under `Root/` or not)
/// or from the default one (`default_found`), is `Root/enblocal.ini`, and no
/// file deleted from a removal list is `Root/enblocal.ini`,
/// `Root/d3d11.dll` or `Root/d3dcompiler_46e.dll` (compared without regard
/// to case or separator).
pub proof fn law_swap_spares_protected(
    custom_found: Seq<Seq<char>>,
    wrap: bool,
    default_found: Seq<Seq<char>>,
    removal: Seq<Seq<char>>,
)
    ensures
        forall|i: int|
            0 <= i < custom_targets(custom_found, wrap).len() ==> !is_enblocal(
                #[trigger] custom_targets(custom_found, wrap)[i],
            ),
        forall|i: int|
            0 <= i < default_files(default_found).len() ==> !is_enblocal(#[trigger] default_files(default_found)[i]),
        forall|i: int| 0 <= i < deleted_files(removal).len() ==> !is_kept(#[trigger] deleted_files(removal)[i]),
{
    let mapped = custom_found.map_values(|r: Seq<char>| if wrap { "Root/"@ + r } else { r });
    lemma_keep_if_all(mapped, |r: Seq<char>| !is_enblocal(r));
    lemma_keep_if_all(default_found, |x: Seq<char>| default_part(x));
    lemma_keep_if_all(removal, |x: Seq<char>| !is_kept(x));
}

/// The name a `meta.ini` line gives the default ENB: the `installationFile`
/// value up to its first `-`, trimmed.
pub open spec fn meta_line_name(line: Seq<char>) -> Option<Seq<char>> {
    let t = trim(line);
    let key = "installationFile="@;
    if t.len() >= key.len() && t.take(key.len() as int) == key {
        let v = trim(t.skip(key.len() as int));
        if v.len() > 0 {
            let name = trim(split(v, '-')[0]);
            if name.len() > 0 {
                Some(name)
            } else {
                None
            }
        } else {
            None
        }
    } else {
        None
    }
}

/// The first name the lines give.
pub open spec fn first_meta_name(ls: Seq<Seq<char>>) -> Option<Seq<char>>
    decreases ls.len(),
{
    if ls.len() == 0 {
        None
    } else {
        match meta_line_name(ls[0]) {
            Some(n) => Some(n),
            None => first_meta_name(ls.drop_first()),
        }
    }
}

/// The default ENB's name, from `meta.ini` when it gives one.
pub open spec fn default_name(meta: Option<Seq<char>>) -> Seq<char> {
    match meta {
        Some(m) => match first_meta_name(lines(m)) {
            Some(n) => n,
            None => "Default ENB"@,
        },
        None => "Default ENB"@,
    }
}

/// Position of the last `.` in `s`.
pub open spec fn last_dot(s: Seq<char>) -> Option<int>
    decreases s.len(),
{
    if s.len() == 0 {
        None
    } else if s.last() == '.' {
        Some(s.len() - 1)
    } else {
        last_dot(s.drop_last())
    }
}

/// The extension of the last component of `path` (`Path::extension` for a
/// path ending in a file name): what follows its last `.`, when that dot
/// does not start the name.
pub open spec fn extension(path: Seq<char>) -> Option<Seq<char>> {
    let name = split(path, '/').last();
    match last_dot(name) {
        Some(i) => if i > 0 && name != ".."@ {
            Some(name.skip(i + 1))
        } else {
            None
        },
        None => None,
    }
}

/// The MIME type an image path stands for.
pub open spec fn image_mime(path: Seq<char>) -> Seq<char> {
    let ext = ascii_lower(
        match extension(path) {
            Some(e) => e,
            None => "png"@,
        },
    );
    if ext == "jpg"@ || ext == "jpeg"@ {
        "image/jpeg"@
    } else if ext == "webp"@ {
        "image/webp"@
    } else {
        "image/png"@
    }
}

/// A change as (section, key, value).
pub open spec fn change_views(cs: Seq<EnbIniChange>) -> Seq<(Seq<char>, Seq<char>, Seq<char>)> {
    cs.map_values(|c: EnbIniChange| (c.section@, c.key@, c.value@))
}

/// The first change for `key` in section `sec` (both compared ignoring ASCII case).
pub open spec fn first_change(
    cs: Seq<(Seq<char>, Seq<char>, Seq<char>)>,
    sec: Seq<char>,
    key: Seq<char>,
) -> Option<(Seq<char>, Seq<char>, Seq<char>)>
    decreases cs.len(),
{
    if cs.len() == 0 {
        None
    } else if eq_ignore_ascii_case(cs[0].0, sec) && eq_ignore_ascii_case(cs[0].1, key) {
        Some(cs[0])
    } else {
        first_change(cs.drop_first(), sec, key)
    }
}

/// The whitespace a line starts with.
pub open spec fn indent(line: Seq<char>) -> Seq<char> {
    line.take(line.len() - trim_start(line).len())
}

/// One raw line of `enbseries.ini` applied to (lines out, section, edits made).
pub open spec fn edit_line(
    cs: Seq<(Seq<char>, Seq<char>, Seq<char>)>,
    st: (Seq<Seq<char>>, Seq<char>, nat),
    raw: Seq<char>,
) -> (Seq<Seq<char>>, Seq<char>, nat) {
    let line = strip_cr(raw);
    let t = trim(line);
    if is_header(t) {
        (st.0.push(line), ascii_lower(header_name(t)), st.2)
    } else {
        match find_char(t, '=') {
            Some(eq) => {
                let key = trim(t.take(eq));
                match first_change(cs, st.1, key) {
                    Some(c) => (st.0.push(indent(line) + key + "="@ + c.2), st.1, st.2 + 1),
                    None => (st.0.push(line), st.1, st.2),
                }
            },
            None => (st.0.push(line), st.1, st.2),
        }
    }
}

pub open spec fn edit_lines(cs: Seq<(Seq<char>, Seq<char>, Seq<char>)>, raws: Seq<Seq<char>>) -> (
    Seq<Seq<char>>,
    Seq<char>,
    nat,
)
    decreases raws.len(),
{
    if raws.len() == 0 {
        (seq![], seq![], 0)
    } else {
        edit_line(cs, edit_lines(cs, raws.drop_last()), raws.last())
    }
}

/// The number of settings changed and the new text of `enbseries.ini`; line
/// endings stay CRLF when the file had any.
pub open spec fn edited_config(content: Seq<char>, cs: Seq<(Seq<char>, Seq<char>, Seq<char>)>) -> (nat, Seq<char>) {
    let st = edit_lines(cs, split(content, '\n'));
    (st.2, join(st.0, if contains(content, "\r\n"@) { "\r\n"@ } else { "\n"@ }))
}

pub open spec fn count_msg(prefix: Seq<char>, n: nat, suffix: Seq<char>) -> Seq<char> {
    prefix + decimal(n) + suffix
}

// ───────────────────────── helpers ─────────────────────────

fn norm_exec(rel: &str) -> (r: Vec<char>)
    ensures
        r@ == norm(rel@),
{
    let c = chars_of(rel);
    let s = replace_ch(&c, '\\', '/');
    to_ascii_lower(&s)
}

/// The last piece of `s` split at `c`.
fn last_piece(s: &[char], c: char) -> (r: Vec<char>)
    ensures
        r@ == split(s@, c).last(),
{
    let parts = split_at_char(s, c);
    let n = parts.len();
    assert(views(parts@).len() == split(s@, c).len());
    assert(n > 0);
    assert(views(parts@)[n - 1] == parts@[n - 1]@);
    slice_of(&parts[n - 1], 0, parts[n - 1].len())
}

/// The extension of a path's last component, as `extension` reads it.
pub(crate) fn extension_of(path: &[char]) -> (r: Option<Vec<char>>)
    ensures
        match r {
            Some(e) => extension(path@) == Some(e@),
            None => extension(path@) is None,
        },
{
    let name = last_piece(path, '/');
    let n = name.len();
    match EnbManager::last_dot_of(&name) {
        Some(i) => if i > 0 && !eq_str(&name, "..") {
            assert(i < n);
            let e = slice_of(&name, i + 1, n);
            assert(e@ =~= name@.skip(i + 1));
            Some(e)
        } else {
            None
        },
        None => None,
    }
}

fn message(prefix: &str, n: usize, suffix: &str) -> (r: String)
    ensures
        r@ == count_msg(prefix@, n as nat, suffix@),
{
    let mut v: Vec<char> = Vec::new();
    push_str(&mut v, prefix);
    push_decimal(&mut v, n as u64);
    push_str(&mut v, suffix);
    string_of(&v)
}

pub struct EnbManager;

impl EnbManager {
    /// `rel` with `/` separators, ASCII lower case.
    pub fn norm(rel: &str) -> (r: String)
        ensures
            r@ == norm(rel@),
    {
        let v = norm_exec(rel);
        string_of(&v)
    }

    /// The protected `enblocal.ini`?
    pub fn is_enblocal(rel: &str) -> (b: bool)
        ensures
            b == is_enblocal(rel@),
    {
        let n = norm_exec(rel);
        eq_str(&n, "root/enblocal.ini")
    }

    /// Must `rel` survive a swap?
    pub fn is_kept(rel: &str) -> (b: bool)
        ensures
            b == is_kept(rel@),
    {
        let n = norm_exec(rel);
        eq_str(&n, "root/enblocal.ini") || eq_str(&n, "root/d3d11.dll") || eq_str(&n, "root/d3dcompiler_46e.dll")
    }

    /// The state when none was saved.
    pub fn initial_state() -> (s: EnbState)
        ensures
            s.active@ == "default"@,
            s.custom_name is None,
            s.custom_showcase is None,
            s.manifest@.len() == 0,
    {
        EnbState { active: "default".to_owned(), custom_name: None, custom_showcase: None, manifest: Vec::new() }
    }

    /// The files of the default ENB folder (relative paths found there) that
    /// make up the ENB.
    pub fn collect_default_files(found: &[String]) -> (r: Vec<String>)
        ensures
            strs(r@) == default_files(strs(found@)),
    {
        let ghost f = |x: Seq<char>| default_part(x);
        let ghost s = strs(found@);
        let mut out: Vec<String> = Vec::new();
        let mut i: usize = 0;
        assert(s.take(0) =~= Seq::<Seq<char>>::empty());
        while i < found.len()
            invariant
                i <= found@.len(),
                s == strs(found@),
                f == (|x: Seq<char>| default_part(x)),
                strs(out@) == keep_if(s.take(i as int), f),
            decreases found@.len() - i,
        {
            assert(s.take(i + 1).drop_last() =~= s.take(i as int));
            assert(s.take(i + 1).last() == found@[i as int]@);
            let c = chars_of(found[i].as_str());
            let base = last_piece(&c, '/');
            let keep = !eq_ignore_case_str(&base, "meta.ini") && !eq_ignore_case_str(&base, "Showcase.png")
                && !Self::is_enblocal(found[i].as_str());
            let ghost before = strs(out@);
            if keep {
                out.push(found[i].clone());
                assert(strs(out@) =~= before + seq![found@[i as int]@]);
            } else {
                assert(strs(out@) =~= before + Seq::<Seq<char>>::empty());
            }
            i += 1;
        }
        assert(s.take(s.len() as int) =~= s);
        out
    }

    /// Where the files of a user-selected ENB go (relative paths found in it):
    /// wrapped under `Root/` when it has ENB files at its top and no `Root/`;
    /// the protected `enblocal.ini` is dropped. An error when nothing is left.
    pub fn collect_custom_files(found: &[String], has_root: bool, has_enb_top: bool) -> (r: Result<
        Vec<String>,
        String,
    >)
        ensures
            match r {
                Ok(v) => strs(v@) == custom_targets(strs(found@), !has_root && has_enb_top) && v@.len() > 0,
                Err(e) => custom_targets(strs(found@), !has_root && has_enb_top).len() == 0 && e@
                    == "No installable ENB files found in the selected folder."@,
            },
    {
        let wrap = !has_root && has_enb_top;
        let ghost s = strs(found@);
        let ghost mapped = s.map_values(|r: Seq<char>| if wrap { "Root/"@ + r } else { r });
        let ghost f = |r: Seq<char>| !is_enblocal(r);
        let mut out: Vec<String> = Vec::new();
        let mut i: usize = 0;
        assert(mapped.take(0) =~= Seq::<Seq<char>>::empty());
        while i < found.len()
            invariant
                i <= found@.len(),
                s == strs(found@),
                mapped == s.map_values(|r: Seq<char>| if wrap { "Root/"@ + r } else { r }),
                f == (|r: Seq<char>| !is_enblocal(r)),
                strs(out@) == keep_if(mapped.take(i as int), f),
            decreases found@.len() - i,
        {
            assert(mapped.take(i + 1).drop_last() =~= mapped.take(i as int));
            let rel = if wrap {
                let mut v: Vec<char> = Vec::new();
                push_str(&mut v, "Root/");
                push_str(&mut v, found[i].as_str());
                string_of(&v)
            } else {
                found[i].clone()
            };
            assert(mapped.take(i + 1).last() == rel@);
            let ghost before = strs(out@);
            if !Self::is_enblocal(rel.as_str()) {
                out.push(rel);
                assert(strs(out@) =~= before + seq![mapped[i as int]]);
            } else {
                assert(strs(out@) =~= before + Seq::<Seq<char>>::empty());
            }
            i += 1;
        }
        assert(mapped.take(mapped.len() as int) =~= mapped);
        if out.len() == 0 {
            return Err("No installable ENB files found in the selected folder.".to_owned());
        }
        Ok(out)
    }

    /// What a swap removes: the last manifest, then the default ENB's files.
    pub fn removal_list(manifest: &[String], defaults: &[String]) -> (r: Vec<String>)
        ensures
            strs(r@) == strs(manifest@) + strs(defaults@),
    {
        let mut out: Vec<String> = Vec::new();
        let mut i: usize = 0;
        while i < manifest.len()
            invariant
                i <= manifest@.len(),
                strs(out@) == strs(manifest@).take(i as int),
            decreases manifest@.len() - i,
        {
            let ghost before = strs(out@);
            out.push(manifest[i].clone());
            assert(strs(out@) =~= before.push(manifest@[i as int]@));
            assert(strs(manifest@).take(i + 1) =~= strs(manifest@).take(i as int).push(manifest@[i as int]@));
            i += 1;
        }
        let mut j: usize = 0;
        assert(strs(manifest@).take(manifest@.len() as int) =~= strs(manifest@));
        while j < defaults.len()
            invariant
                j <= defaults@.len(),
                strs(out@) == strs(manifest@) + strs(defaults@).take(j as int),
            decreases defaults@.len() - j,
        {
            let ghost before = strs(out@);
            out.push(defaults[j].clone());
            assert(strs(out@) =~= before.push(defaults@[j as int]@));
            assert(strs(defaults@).take(j + 1) =~= strs(defaults@).take(j as int).push(defaults@[j as int]@));
            assert(strs(out@) =~= strs(manifest@) + strs(defaults@).take(j + 1));
            j += 1;
        }
        assert(strs(defaults@).take(defaults@.len() as int) =~= strs(defaults@));
        out
    }

    /// The files a swap deletes from the deploy folder: the removal list
    /// without the files that must survive.
    pub fn deletable(removal: &[String]) -> (r: Vec<String>)
        ensures
            strs(r@) == deleted_files(strs(removal@)),
    {
        let ghost f = |x: Seq<char>| !is_kept(x);
        let ghost s = strs(removal@);
        let mut out: Vec<String> = Vec::new();
        let mut i: usize = 0;
        assert(s.take(0) =~= Seq::<Seq<char>>::empty());
        while i < removal.len()
            invariant
                i <= removal@.len(),
                s == strs(removal@),
                f == (|x: Seq<char>| !is_kept(x)),
                strs(out@) == keep_if(s.take(i as int), f),
            decreases removal@.len() - i,
        {
            assert(s.take(i + 1).drop_last() =~= s.take(i as int));
            assert(s.take(i + 1).last() == removal@[i as int]@);
            let ghost before = strs(out@);
            if !Self::is_kept(removal[i].as_str()) {
                out.push(removal[i].clone());
                assert(strs(out@) =~= before + seq![removal@[i as int]@]);
            } else {
                assert(strs(out@) =~= before + Seq::<Seq<char>>::empty());
            }
            i += 1;
        }
        assert(s.take(s.len() as int) =~= s);
        out
    }

    /// What disabling the ENB deletes: the manifest and the default ENB's
    /// files, sorted, without repeats, without the files that must survive.
    pub fn disable_removal(manifest: &[String], defaults: &[String]) -> (r: Vec<String>)
        ensures
            exists|s: Seq<Seq<char>>|
                sorted(s) && permutes(s, strs(manifest@) + strs(defaults@)) && strs(r@) == keep_if(
                    dedup(s),
                    |x: Seq<char>| !is_kept(x),
                ),
    {
        let all = Self::removal_list(manifest, defaults);
        let s = sort_strings(&all);
        let d = dedup_strings(&s);
        let r = Self::deletable(&d);
        assert(sorted(strs(s@)) && permutes(strs(s@), strs(manifest@) + strs(defaults@)));
        r
    }

    /// The state after the default ENB was laid down with `manifest`.
    pub fn record_default(state: &mut EnbState, manifest: Vec<String>)
        ensures
            final(state).active@ == "default"@,
            final(state).manifest@ == manifest@,
            final(state).custom_name == old(state).custom_name,
            final(state).custom_showcase == old(state).custom_showcase,
    {
        state.active = "default".to_owned();
        state.manifest = manifest;
    }

    /// The state after a custom ENB was installed.
    pub fn record_custom(state: &mut EnbState, name: &str, showcase: Option<String>, manifest: Vec<String>)
        ensures
            final(state).active@ == "custom"@,
            final(state).custom_name matches Some(n) && n@ == name@,
            final(state).custom_showcase == showcase,
            final(state).manifest@ == manifest@,
    {
        state.active = "custom".to_owned();
        state.custom_name = Some(name.to_owned());
        state.custom_showcase = showcase;
        state.manifest = manifest;
    }

    /// The state after the ENB was disabled.
    pub fn record_disabled(state: &mut EnbState)
        ensures
            final(state).active@ == "none"@,
            final(state).manifest@.len() == 0,
            final(state).custom_name == old(state).custom_name,
            final(state).custom_showcase == old(state).custom_showcase,
    {
        state.active = "none".to_owned();
        state.manifest = Vec::new();
    }

    /// The state after the custom ENB was removed; returns the preview file
    /// to delete, if any.
    pub fn forget_custom(state: &mut EnbState) -> (r: Option<String>)
        ensures
            r == old(state).custom_showcase,
            final(state).custom_showcase is None,
            final(state).custom_name is None,
            final(state).active == old(state).active,
            final(state).manifest == old(state).manifest,
    {
        let f = state.custom_showcase.take();
        state.custom_name = None;
        f
    }

    /// A custom ENB's name: trimmed, and required.
    pub fn custom_name(name: &str) -> (r: Result<String, String>)
        ensures
            match r {
                Ok(n) => trim(name@).len() > 0 && n@ == trim(name@),
                Err(e) => trim(name@).len() == 0 && e@ == "Please provide a name for the ENB."@,
            },
    {
        let c = chars_of(name);
        let t = trimmed(&c);
        if t.len() == 0 {
            return Err("Please provide a name for the ENB.".to_owned());
        }
        Ok(string_of(&t))
    }

    /// The default ENB's name from its `meta.ini` text (`None`: unreadable).
    pub fn default_name(meta: Option<&str>) -> (r: String)
        ensures
            r@ == default_name(
                match meta {
                    Some(m) => Some(m@),
                    None => None,
                },
            ),
    {
        let m = match meta {
            Some(m) => m,
            None => return "Default ENB".to_owned(),
        };
        let c = chars_of(m);
        let ls = split_lines(&c);
        let ghost lv = views(ls@);
        let mut i: usize = 0;
        assert(lv.skip(0) =~= lv);
        proof {
            reveal_strlit("installationFile=");
        }
        while i < ls.len()
            invariant
                i <= ls@.len(),
                lv == views(ls@),
                lv == lines(m@),
                meta == Some(m),
                first_meta_name(lv) == first_meta_name(lv.skip(i as int)),
                "installationFile="@.len() == 17,
            decreases ls@.len() - i,
        {
            assert(lv.skip(i as int)[0] == ls@[i as int]@);
            assert(lv.skip(i as int).drop_first() =~= lv.skip(i + 1));
            let t = trimmed(&ls[i]);
            if crate::text::starts_with_str(&t, "installationFile=") {
                let v = trimmed(&slice_of(&t, 17, t.len()));
                assert(t@.skip(17) =~= t@.subrange(17, t@.len() as int));
                if v.len() > 0 {
                    let parts = split_at_char(&v, '-');
                    assert(split(v@, '-').len() > 0);
                    assert(views(parts@)[0] == parts@[0]@);
                    let name = trimmed(&parts[0]);
                    if name.len() > 0 {
                        assert(meta_line_name(ls@[i as int]@) == Some(name@));
                        return string_of(&name);
                    }
                }
            }
            i += 1;
        }
        assert(lv.skip(i as int) =~= Seq::<Seq<char>>::empty());
        "Default ENB".to_owned()
    }

    /// The ENB page's summary from the saved state and what was found on disk.
    pub fn get_status(
        state: &EnbState,
        default_meta: Option<&str>,
        default_has_showcase: bool,
        custom_showcase_exists: bool,
        mods_folder: &str,
    ) -> (r: EnbStatus)
        ensures
            r.default.name@ == default_name(
                match default_meta {
                    Some(m) => Some(m@),
                    None => None,
                },
            ),
            r.default.has_showcase == default_has_showcase,
            match state.custom_name {
                Some(n) => r.custom matches Some(c) && c.name@ == n@ && c.has_showcase == (
                state.custom_showcase is Some && custom_showcase_exists),
                None => r.custom is None,
            },
            r.active@ == if state.active@ == "custom"@ {
                "custom"@
            } else {
                "default"@
            },
            r.deploy_path@ == join_path(mods_folder@, "Fallen World Optional Mods"@),
    {
        let default = EnbInfo { name: Self::default_name(default_meta), has_showcase: default_has_showcase };
        let custom = match &state.custom_name {
            Some(n) => Some(
                EnbInfo { name: n.clone(), has_showcase: state.custom_showcase.is_some() && custom_showcase_exists },
            ),
            None => None,
        };
        let a = chars_of(state.active.as_str());
        let active = if eq_str(&a, "custom") {
            "custom".to_owned()
        } else {
            "default".to_owned()
        };
        EnbStatus { default, custom, active, deploy_path: Self::deploy_dir_of(mods_folder) }
    }

    /// Where the live ENB is deployed: `<mods>/Fallen World Optional Mods`.
    pub fn deploy_dir_of(mods_folder: &str) -> (r: String)
        ensures
            r@ == join_path(mods_folder@, "Fallen World Optional Mods"@),
    {
        string_of(&join_path_exec(mods_folder, "Fallen World Optional Mods"))
    }

    /// Where the read-only default ENB ships:
    /// `<mods>/Fallen World FOMOD Resources/ENBs`.
    pub fn default_dir_of(mods_folder: &str) -> (r: String)
        ensures
            r@ == join_path(mods_folder@, "Fallen World FOMOD Resources/ENBs"@),
    {
        string_of(&join_path_exec(mods_folder, "Fallen World FOMOD Resources/ENBs"))
    }

    /// The outcome of laying the default ENB down (`Ok`: files deployed).
    pub fn apply_default(outcome: Result<usize, String>) -> (r: OperationResult)
        ensures
            match outcome {
                Ok(n) => r.success && r.message@ == count_msg("Default ENB applied ("@, n as nat, " files)."@),
                Err(e) => !r.success && r.message@ == e@,
            },
    {
        match outcome {
            Ok(n) => OperationResult { success: true, message: message("Default ENB applied (", n, " files).") },
            Err(e) => OperationResult { success: false, message: e },
        }
    }

    /// The outcome of installing custom ENB `name` (as the user typed it).
    pub fn install_custom(name: &str, outcome: Result<usize, String>) -> (r: OperationResult)
        ensures
            trim(name@).len() == 0 ==> !r.success && r.message@ == "Please provide a name for the ENB."@,
            trim(name@).len() > 0 ==> match outcome {
                Ok(n) => r.success && r.message@ == count_msg(
                    "Installed custom ENB '"@ + name@ + "' ("@,
                    n as nat,
                    " files)."@,
                ),
                Err(e) => !r.success && r.message@ == e@,
            },
    {
        match Self::custom_name(name) {
            Err(e) => return OperationResult { success: false, message: e },
            Ok(_) => {},
        }
        match outcome {
            Ok(n) => {
                let mut v: Vec<char> = Vec::new();
                push_str(&mut v, "Installed custom ENB '");
                push_str(&mut v, name);
                push_str(&mut v, "' (");
                let prefix = string_of(&v);
                OperationResult { success: true, message: message(prefix.as_str(), n, " files).") }
            },
            Err(e) => OperationResult { success: false, message: e },
        }
    }

    /// The outcome of disabling the ENB (`Ok`: files removed).
    pub fn disable_enb(outcome: Result<usize, String>) -> (r: OperationResult)
        ensures
            match outcome {
                Ok(n) => r.success && r.message@ == count_msg(
                    "ENB disabled ("@,
                    n as nat,
                    " files removed from Optional Mods)."@,
                ),
                Err(e) => !r.success && r.message@ == e@,
            },
    {
        match outcome {
            Ok(n) => OperationResult {
                success: true,
                message: message("ENB disabled (", n, " files removed from Optional Mods)."),
            },
            Err(e) => OperationResult { success: false, message: e },
        }
    }

    /// The outcome of removing the custom ENB (the default is restored).
    pub fn remove_custom(outcome: Result<usize, String>) -> (r: OperationResult)
        ensures
            match outcome {
                Ok(n) => r.success && r.message@ == count_msg(
                    "Custom ENB removed; default restored ("@,
                    n as nat,
                    " files)."@,
                ),
                Err(e) => !r.success && r.message@ == e@,
            },
    {
        match outcome {
            Ok(n) => OperationResult {
                success: true,
                message: message("Custom ENB removed; default restored (", n, " files)."),
            },
            Err(e) => OperationResult { success: false, message: e },
        }
    }

    /// The edit of the live `enbseries.ini` (`file`: `None` when it is not
    /// there, else its text or why it could not be read): how many settings
    /// change and the new text, or why not.
    pub fn save_config_edit(file: Option<Result<String, String>>, changes: &[EnbIniChange]) -> (r: Result<
        (usize, String),
        String,
    >)
        ensures
            match file {
                None => r matches Err(e) && e@ == "enbseries.ini not found for the active ENB."@,
                Some(Err(e)) => r matches Err(e2) && e2@ == "Cannot read enbseries.ini: "@ + e@,
                Some(Ok(c)) => r matches Ok(x) && (x.0 as nat, x.1@) == edited_config(c@, change_views(changes@)),
            },
    {
        match file {
            None => Err("enbseries.ini not found for the active ENB.".to_owned()),
            Some(Err(e)) => {
                let mut v: Vec<char> = Vec::new();
                push_str(&mut v, "Cannot read enbseries.ini: ");
                push_str(&mut v, e.as_str());
                Err(string_of(&v))
            },
            Some(Ok(c)) => Ok(Self::apply_changes(c.as_str(), changes)),
        }
    }

    /// The outcome of saving configurator edits (`Ok`: settings changed).
    pub fn save_config(outcome: Result<usize, String>) -> (r: OperationResult)
        ensures
            match outcome {
                Ok(n) => r.success && r.message@ == count_msg("Saved "@, n as nat, " setting(s) to enbseries.ini."@),
                Err(e) => !r.success && r.message@ == e@,
            },
    {
        match outcome {
            Ok(n) => OperationResult { success: true, message: message("Saved ", n, " setting(s) to enbseries.ini.") },
            Err(e) => OperationResult { success: false, message: e },
        }
    }

    /// Base64 of an image.
    pub fn base64(data: &[u8]) -> (r: String)
        ensures
            r@ == base64(data@),
    {
        let c = encode(data);
        string_of(&c)
    }

    /// A showcase image as a `data:` URL; the MIME type follows the extension.
    pub fn showcase(path: &str, data: Option<&[u8]>) -> (r: String)
        ensures
            match data {
                Some(d) => r@ == "data:"@ + image_mime(path@) + ";base64,"@ + base64(d@),
                None => r@.len() == 0,
            },
    {
        let d = match data {
            Some(d) => d,
            None => return String::new(),
        };
        let p = chars_of(path);
        let name = last_piece(&p, '/');
        let name_len = name.len();
        let ext = match Self::last_dot_of(&name) {
            Some(i) => if i > 0 && !eq_str(&name, "..") {
                slice_of(&name, i + 1, name.len())
            } else {
                chars_of("png")
            },
            None => chars_of("png"),
        };
        proof {
            if let Some(i) = last_dot(name@) {
                assert(name@.skip(i + 1) =~= name@.subrange(i + 1, name@.len() as int));
            }
        }
        let e = to_ascii_lower(&ext);
        let mut v: Vec<char> = Vec::new();
        push_str(&mut v, "data:");
        if eq_str(&e, "jpg") || eq_str(&e, "jpeg") {
            push_str(&mut v, "image/jpeg");
        } else if eq_str(&e, "webp") {
            push_str(&mut v, "image/webp");
        } else {
            push_str(&mut v, "image/png");
        }
        push_str(&mut v, ";base64,");
        let b = encode(d);
        push_all(&mut v, &b);
        string_of(&v)
    }

    /// Apply configurator edits to the text of `enbseries.ini`, in place:
    /// comments, order and line endings are kept; keys not found are skipped.
    /// Returns how many lines were changed and the new text.
    pub fn apply_changes(content: &str, changes: &[EnbIniChange]) -> (r: (usize, String))
        ensures
            (r.0 as nat, r.1@) == edited_config(content@, change_views(changes@)),
    {
        let c = chars_of(content);
        let crlf = contains_str(&c, "\r\n");
        let raws = split_at_char(&c, '\n');
        let ghost cs = change_views(changes@);
        let ghost rv = views(raws@);
        let mut out: Vec<Vec<char>> = Vec::new();
        let mut cur: Vec<char> = Vec::new();
        let mut applied: usize = 0;
        let mut i: usize = 0;
        assert(rv.take(0) =~= Seq::<Seq<char>>::empty());
        assert(views(out@) =~= Seq::<Seq<char>>::empty());
        while i < raws.len()
            invariant
                i <= raws@.len(),
                rv == views(raws@),
                cs == change_views(changes@),
                applied <= i,
                edit_lines(cs, rv.take(i as int)) == (views(out@), cur@, applied as nat),
            decreases raws@.len() - i,
        {
            assert(rv.take(i + 1).drop_last() =~= rv.take(i as int));
            assert(rv.take(i + 1).last() == raws@[i as int]@);
            let raw = &raws[i];
            let line = if raw.len() > 0 && raw[raw.len() - 1] == '\r' {
                slice_of(raw, 0, raw.len() - 1)
            } else {
                slice_of(raw, 0, raw.len())
            };
            assert(line@ =~= strip_cr(raw@));
            let t = trimmed(&line);
            let ghost before = views(out@);
            if t.len() >= 2 && t[0] == '[' && t[t.len() - 1] == ']' {
                let inner = slice_of(&t, 1, t.len() - 1);
                cur = to_ascii_lower(&inner);
                out.push(line);
                assert(views(out@) =~= before.push(strip_cr(raw@)));
            } else {
                match find_ch(&t, '=') {
                    Some(eq) => {
                        proof {
                            lemma_find(t@, seq!['=']);
                        }
                        let key = trimmed(&slice_of(&t, 0, eq));
                        assert(t@.take(eq as int) =~= t@.subrange(0, eq as int));
                        match Self::find_change(changes, &cur, &key) {
                            Some(k) => {
                                let lead = Self::leading_ws(&line);
                                let mut nl: Vec<char> = Vec::new();
                                push_all(&mut nl, &lead);
                                push_all(&mut nl, &key);
                                nl.push('=');
                                push_str(&mut nl, changes[k].value.as_str());
                                proof {
                                    reveal_strlit("=");
                                }
                                assert(nl@ =~= indent(line@) + key@ + "="@ + changes@[k as int].value@);
                                out.push(nl);
                                assert(views(out@) =~= before.push(indent(line@) + key@ + "="@ + cs[k as int].2));
                                applied = applied + 1;
                            },
                            None => {
                                out.push(line);
                                assert(views(out@) =~= before.push(strip_cr(raw@)));
                            },
                        }
                    },
                    None => {
                        out.push(line);
                        assert(views(out@) =~= before.push(strip_cr(raw@)));
                    },
                }
            }
            i += 1;
        }
        assert(rv.take(raws@.len() as int) =~= rv);
        let mut text: Vec<char> = Vec::new();
        let ghost ov = views(out@);
        let mut q: usize = 0;
        assert(join(ov.take(0), if crlf { "\r\n"@ } else { "\n"@ }) =~= Seq::<char>::empty());
        while q < out.len()
            invariant
                q <= out@.len(),
                ov == views(out@),
                text@ == join(ov.take(q as int), if crlf { "\r\n"@ } else { "\n"@ }),
            decreases out@.len() - q,
        {
            assert(ov.take(q + 1).drop_last() =~= ov.take(q as int));
            assert(ov.take(q + 1).last() == out@[q as int]@);
            if q > 0 {
                if crlf {
                    push_str(&mut text, "\r\n");
                } else {
                    push_str(&mut text, "\n");
                }
            } else {
                assert(ov.take(1)[0] == out@[0]@);
            }
            push_all(&mut text, &out[q]);
            q += 1;
        }
        assert(ov.take(out@.len() as int) =~= ov);
        (applied, string_of(&text))
    }

    /// The first change for `key` in section `cur` (ignoring ASCII case).
    fn find_change(changes: &[EnbIniChange], cur: &Vec<char>, key: &Vec<char>) -> (r: Option<usize>)
        ensures
            match r {
                Some(k) => k < changes@.len() && first_change(change_views(changes@), cur@, key@) == Some(
                    change_views(changes@)[k as int],
                ),
                None => first_change(change_views(changes@), cur@, key@) is None,
            },
    {
        let ghost cs = change_views(changes@);
        let lc = to_ascii_lower(cur);
        let lk = to_ascii_lower(key);
        let mut i: usize = 0;
        assert(cs.skip(0) =~= cs);
        while i < changes.len()
            invariant
                i <= changes@.len(),
                cs == change_views(changes@),
                lc@ == ascii_lower(cur@),
                lk@ == ascii_lower(key@),
                first_change(cs, cur@, key@) == first_change(cs.skip(i as int), cur@, key@),
            decreases changes@.len() - i,
        {
            assert(cs.skip(i as int)[0] == cs[i as int]);
            assert(cs.skip(i as int).drop_first() =~= cs.skip(i + 1));
            let sc = chars_of(changes[i].section.as_str());
            let kc = chars_of(changes[i].key.as_str());
            let ls = to_ascii_lower(&sc);
            let lk2 = to_ascii_lower(&kc);
            if crate::text::eq_chars(&ls, &lc) && crate::text::eq_chars(&lk2, &lk) {
                return Some(i);
            }
            i += 1;
        }
        assert(cs.skip(i as int) =~= Seq::<(Seq<char>, Seq<char>, Seq<char>)>::empty());
        None
    }

    /// Position of the last `.` in `s`.
    fn last_dot_of(s: &Vec<char>) -> (r: Option<usize>)
        ensures
            match r {
                Some(i) => last_dot(s@) == Some(i as int) && i < s@.len(),
                None => last_dot(s@) is None,
            },
    {
        let mut j: usize = s.len();
        assert(s@.take(s@.len() as int) =~= s@);
        while j > 0
            invariant
                j <= s@.len(),
                last_dot(s@) == last_dot(s@.take(j as int)),
            decreases j,
        {
            assert(s@.take(j as int).drop_last() =~= s@.take(j - 1));
            assert(s@.take(j as int).last() == s@[j - 1]);
            if s[j - 1] == '.' {
                return Some(j - 1);
            }
            j -= 1;
        }
        None
    }

    /// The whitespace `line` starts with.
    fn leading_ws(line: &Vec<char>) -> (r: Vec<char>)
        ensures
            r@ == indent(line@),
    {
        let mut i: usize = 0;
        while i < line.len() && crate::text::is_whitespace(line[i])
            invariant
                i <= line@.len(),
                forall|k: int| 0 <= k < i ==> crate::text::is_ws(#[trigger] line@[k]),
            decreases line@.len() - i,
        {
            i += 1;
        }
        proof {
            crate::text::lemma_trim_start_at(line@, i as int);
        }
        slice_of(line, 0, i)
    }
}


// ───────────────────────── custom preview ─────────────────────────

/// A preview image: a file with a `png`, `jpg`, `jpeg` or `webp` extension
/// (lower-cased).
pub open spec fn is_image(is_file: bool, name: Seq<char>) -> bool {
    is_file && (extension(name) matches Some(e) && {
        let l = lowercase(e);
        l == "png"@ || l == "jpg"@ || l == "jpeg"@ || l == "webp"@
    })
}

/// Among the first `n` entries (name, is a file, size), the first of the
/// largest images.
pub open spec fn best_image(entries: Seq<(Seq<char>, bool, u64)>, n: int) -> Option<int>
    decreases n,
{
    if n <= 0 {
        None
    } else {
        let prev = best_image(entries, n - 1);
        let e = entries[n - 1];
        if is_image(e.1, e.0) && (prev is None || e.2 > entries[prev->0].2) {
            Some(n - 1)
        } else {
            prev
        }
    }
}

pub open spec fn image_entry_views(v: Seq<(String, bool, u64)>) -> Seq<(Seq<char>, bool, u64)> {
    v.map_values(|e: (String, bool, u64)| (e.0@, e.1, e.2))
}

// ───────────────────────── configurator ─────────────────────────

/// One line of `enbseries.ini` read into (settings, current section): a
/// header switches the section (ASCII lower case), a `key=value` line sets
/// the lower-cased key to the trimmed value; nothing else counts.
pub open spec fn enb_line(st: (IniMap, Seq<char>), line: Seq<char>) -> (IniMap, Seq<char>) {
    let t = trim(line);
    if is_header(t) {
        (st.0, ascii_lower(header_name(t)))
    } else {
        match find_char(t, '=') {
            Some(eq) => (ini_set(st.0, st.1, ascii_lower(trim(t.take(eq))), trim(t.skip(eq + 1))), st.1),
            None => st,
        }
    }
}

pub open spec fn enb_lines(ls: Seq<Seq<char>>) -> (IniMap, Seq<char>)
    decreases ls.len(),
{
    if ls.len() == 0 {
        (Map::empty(), seq![])
    } else {
        enb_line(enb_lines(ls.drop_last()), ls.last())
    }
}

/// The settings of an `enbseries.ini`.
pub open spec fn enb_settings(content: Seq<char>) -> IniMap {
    enb_lines(lines(content)).0
}

/// Setting `key` of `section`, if present.
pub open spec fn enb_get(m: IniMap, section: Seq<char>, key: Seq<char>) -> Option<Seq<char>> {
    if m.contains_key(section) && m[section].contains_key(key) {
        Some(m[section][key])
    } else {
        None
    }
}

/// A switch: present and `true` ignoring ASCII case.
pub open spec fn enb_flag(m: IniMap, section: Seq<char>, key: Seq<char>) -> bool {
    enb_get(m, section, key) matches Some(v) && eq_ignore_ascii_case(v, "true"@)
}

/// Each setting as (`section|key`, value), sections and keys in entry order.
pub open spec fn joined_entries(secs: Seq<(Seq<char>, Seq<(Seq<char>, Seq<char>)>)>) -> Seq<(Seq<char>, Seq<char>)>
    decreases secs.len(),
{
    if secs.len() == 0 {
        seq![]
    } else {
        joined_entries(secs.drop_last()) + joined_section(secs.last())
    }
}

pub open spec fn joined_section(sec: (Seq<char>, Seq<(Seq<char>, Seq<char>)>)) -> Seq<(Seq<char>, Seq<char>)> {
    sec.1.map_values(|e: (Seq<char>, Seq<char>)| (sec.0 + "|"@ + e.0, e.1))
}

/// The map of an entry list where a later entry wins over an earlier one
/// with the same key.
pub open spec fn last_wins(s: Seq<(Seq<char>, Seq<char>)>) -> Map<Seq<char>, Seq<char>>
    decreases s.len(),
{
    if s.len() == 0 {
        Map::empty()
    } else {
        last_wins(s.drop_last()).insert(s.last().0, s.last().1)
    }
}

/// An amount the preview scales by: off, or on with the setting as written
/// (`None`: absent, the default applies).
#[derive(Debug, Clone)]
pub enum EnbAmount {
    Off,
    On(Option<String>),
}

/// What the configurator shows of an `enbseries.ini`; numbers are given as
/// written.
#[derive(Debug)]
pub struct EnbSummary {
    pub settings: StringMap<StringMap<String>>,
    pub brightness: Option<String>,
    pub gamma: Option<String>,
    pub bloom: EnbAmount,
    pub lens: EnbAmount,
    pub enable_bloom: bool,
    pub enable_lens: bool,
    pub enable_dof: bool,
    pub enable_ssao: bool,
    pub effects: Vec<EnbEffect>,
    /// Every setting under `section|key`.
    pub values: StringMap<String>,
}

pub open spec fn amount_view(a: EnbAmount) -> Option<Option<Seq<char>>> {
    match a {
        EnbAmount::Off => None,
        EnbAmount::On(v) => Some(opt_view(v)),
    }
}

/// The effect switches the preview lists, in order.
pub open spec fn effect_list(m: IniMap) -> Seq<(Seq<char>, bool)> {
    seq![
        ("Bloom"@, enb_flag(m, "effect"@, "enablebloom"@)),
        ("Lens"@, enb_flag(m, "effect"@, "enablelens"@)),
        ("Depth of Field"@, enb_flag(m, "effect"@, "enabledepthoffield"@)),
        ("Ambient Occlusion"@, enb_flag(m, "effect"@, "enablessao"@)),
        ("Adaptation"@, enb_flag(m, "effect"@, "enableadaptation"@)),
        ("Reflections"@, enb_flag(m, "effect"@, "enablereflections"@)),
        ("Water"@, enb_flag(m, "effect"@, "enablewater"@)),
        ("Subsurface Scattering"@, enb_flag(m, "effect"@, "enablesubsurfacescattering"@)),
    ]
}

pub open spec fn effect_views(v: Seq<EnbEffect>) -> Seq<(Seq<char>, bool)> {
    v.map_values(|e: EnbEffect| (e.name@, e.enabled))
}

impl EnbManager {
    /// The preview to take from a custom ENB folder's top level (`entries`:
    /// name, is a file, size): the first of its largest images.
    pub fn detect_showcase(entries: &Vec<(String, bool, u64)>) -> (r: Option<usize>)
        ensures
            match r {
                Some(k) => best_image(image_entry_views(entries@), entries@.len() as int) == Some(k as int),
                None => best_image(image_entry_views(entries@), entries@.len() as int) is None,
            },
    {
        let ghost ev = image_entry_views(entries@);
        let mut best: Option<usize> = None;
        let mut i: usize = 0;
        while i < entries.len()
            invariant
                i <= entries@.len(),
                ev == image_entry_views(entries@),
                match best {
                    Some(k) => k < i && best_image(ev, i as int) == Some(k as int),
                    None => best_image(ev, i as int) is None,
                },
            decreases entries@.len() - i,
        {
            let e = &entries[i];
            let img = if e.1 {
                match extension_of(&chars_of(e.0.as_str())) {
                    Some(x) => {
                        let l = lower_chars(&x);
                        eq_str(&l, "png") || eq_str(&l, "jpg") || eq_str(&l, "jpeg") || eq_str(&l, "webp")
                    },
                    None => false,
                }
            } else {
                false
            };
            assert(ev[i as int] == (e.0@, e.1, e.2));
            let better = match best {
                None => true,
                Some(k) => e.2 > entries[k].2,
            };
            if img && better {
                best = Some(i);
            }
            i += 1;
        }
        best
    }

    /// The file name a custom preview is kept under: its extension (`png`
    /// when it has none), lower-cased.
    pub fn showcase_file_name(ext: Option<&str>) -> (r: String)
        ensures
            r@ == "enb_custom_showcase."@ + lowercase(
                match ext {
                    Some(e) => e@,
                    None => "png"@,
                },
            ),
    {
        let e = match ext {
            Some(e) => e,
            None => "png",
        };
        let mut v: Vec<char> = Vec::new();
        push_str(&mut v, "enb_custom_showcase.");
        let l = lower_chars(&chars_of(e));
        push_all(&mut v, &l);
        string_of(&v)
    }
}

impl EnbManager {
    /// The settings of an `enbseries.ini` text.
    pub fn parse_settings(content: &str) -> (r: StringMap<StringMap<String>>)
        ensures
            sections_map(r@) == enb_settings(content@),
    {
        let chars = chars_of(content);
        let ls = split_lines(&chars);
        let mut sections: StringMap<StringMap<String>> = StringMap::new();
        let mut current: Vec<char> = Vec::new();
        proof {
            lemma_as_map_empty::<Seq<(Seq<char>, Seq<char>)>>();
            assert(sections_map(sections@) =~= Map::empty());
            assert(views(ls@).take(0) =~= Seq::<Seq<char>>::empty());
        }
        let mut i: usize = 0;
        while i < ls.len()
            invariant
                i <= ls@.len(),
                views(ls@) == lines(content@),
                (sections_map(sections@), current@) == enb_lines(views(ls@).take(i as int)),
            decreases ls@.len() - i,
        {
            let t = trimmed(&ls[i]);
            proof {
                assert(views(ls@).take(i + 1).drop_last() =~= views(ls@).take(i as int));
                assert(views(ls@).take(i + 1).last() == ls@[i as int]@);
            }
            if t.len() >= 2 && t[0] == '[' && t[t.len() - 1] == ']' {
                let name = slice_of(&t, 1, t.len() - 1);
                assert(name@ =~= header_name(t@));
                current = to_ascii_lower(&name);
            } else {
                match find_ch(&t, '=') {
                    Some(eq) => {
                        proof {
                            lemma_find(t@, seq!['=']);
                        }
                        let head = slice_of(&t, 0, eq);
                        let rest = slice_of(&t, eq + 1, t.len());
                        assert(head@ =~= t@.take(eq as int));
                        assert(rest@ =~= t@.skip(eq + 1));
                        let key = to_ascii_lower(&trimmed(&head));
                        let value = trimmed(&rest);
                        crate::services::ini_manager::IniManager::set_in(
                            &mut sections,
                            string_of(&current),
                            string_of(&key),
                            string_of(&value),
                        );
                    },
                    None => {},
                }
            }
            i += 1;
        }
        assert(views(ls@).take(ls@.len() as int) =~= views(ls@));
        sections
    }

    /// Setting `key` of `section`.
    fn setting(settings: &StringMap<StringMap<String>>, section: &str, key: &str) -> (r: Option<String>)
        ensures
            opt_view(r) == enb_get(sections_map(settings@), section@, key@),
    {
        match settings.get(section) {
            Some(inner) => match inner.get(key) {
                Some(v) => Some(string_of(&chars_of(v.as_str()))),
                None => None,
            },
            None => None,
        }
    }

    /// A switch of `section`.
    fn flag(settings: &StringMap<StringMap<String>>, section: &str, key: &str) -> (b: bool)
        ensures
            b == enb_flag(sections_map(settings@), section@, key@),
    {
        match Self::setting(settings, section, key) {
            Some(v) => eq_ignore_case_str(&chars_of(v.as_str()), "true"),
            None => false,
        }
    }

    /// Every setting under `section|key`, later entries winning.
    fn joined_values(settings: &StringMap<StringMap<String>>) -> (r: StringMap<String>)
        ensures
            as_map(r@) == last_wins(joined_entries(settings@)),
    {
        let mut values: StringMap<String> = StringMap::new();
        let ghost secs = settings@;
        proof {
            lemma_as_map_empty::<Seq<char>>();
            assert(joined_entries(secs.take(0)) =~= Seq::<(Seq<char>, Seq<char>)>::empty());
            assert(as_map(values@) =~= last_wins(joined_entries(secs.take(0))));
        }
        let mut a: usize = 0;
        while a < settings.len()
            invariant
                a <= secs.len(),
                secs == settings@,
                as_map(values@) == last_wins(joined_entries(secs.take(a as int))),
            decreases secs.len() - a,
        {
            let (name, inner) = settings.entry_at(a);
            let ghost base = joined_entries(secs.take(a as int));
            let ghost sec = secs[a as int];
            assert(sec.0 == name@ && sec.1 == inner@);
            let mut b: usize = 0;
            assert(base + joined_section(sec).take(0) =~= base);
            while b < inner.len()
                invariant
                    b <= inner@.len(),
                    a < secs.len(),
                    sec == secs[a as int],
                    sec.0 == name@,
                    sec.1 == inner@,
                    as_map(values@) == last_wins(base + joined_section(sec).take(b as int)),
                decreases inner@.len() - b,
            {
                let (k, v) = inner.entry_at(b);
                let mut joined: Vec<char> = chars_of(name.as_str());
                joined.push('|');
                push_str(&mut joined, k.as_str());
                let ghost before = values@;
                values.insert(string_of(&joined), string_of(&chars_of(v.as_str())));
                proof {
                    reveal_strlit("|");
                    assert(joined@ =~= sec.0 + "|"@ + k@);
                    lemma_as_map_insert(before, values@, joined@, v@);
                    let e = joined_section(sec)[b as int];
                    assert(e == (joined@, v@));
                    assert((base + joined_section(sec).take(b + 1)).drop_last() =~= base + joined_section(sec).take(
                        b as int,
                    ));
                    assert((base + joined_section(sec).take(b + 1)).last() == e);
                }
                b += 1;
            }
            proof {
                assert(joined_section(sec).take(inner@.len() as int) =~= joined_section(sec));
                assert(secs.take(a + 1).drop_last() =~= secs.take(a as int));
                assert(secs.take(a + 1).last() == sec);
            }
            a += 1;
        }
        assert(secs.take(secs.len() as int) =~= secs);
        values
    }

    fn amount(settings: &StringMap<StringMap<String>>, on: bool, section: &str) -> (r: EnbAmount)
        ensures
            amount_view(r) == if on {
                Some(enb_get(sections_map(settings@), section@, "amountday"@))
            } else {
                None
            },
    {
        if on {
            EnbAmount::On(Self::setting(settings, section, "amountday"))
        } else {
            EnbAmount::Off
        }
    }

    /// What the configurator shows of an `enbseries.ini` text: brightness
    /// and gamma as written, bloom and lens amounts when those effects are
    /// on, the effect switches, and every setting under `section|key`.
    pub fn summarize(content: &str) -> (r: EnbSummary)
        ensures
            sections_map(r.settings@) == enb_settings(content@),
            opt_view(r.brightness) == enb_get(enb_settings(content@), "colorcorrection"@, "brightness"@),
            opt_view(r.gamma) == enb_get(enb_settings(content@), "colorcorrection"@, "gammacurve"@),
            r.enable_bloom == enb_flag(enb_settings(content@), "effect"@, "enablebloom"@),
            r.enable_lens == enb_flag(enb_settings(content@), "effect"@, "enablelens"@),
            r.enable_dof == enb_flag(enb_settings(content@), "effect"@, "enabledepthoffield"@),
            r.enable_ssao == enb_flag(enb_settings(content@), "effect"@, "enablessao"@),
            amount_view(r.bloom) == if r.enable_bloom {
                Some(enb_get(enb_settings(content@), "bloom"@, "amountday"@))
            } else {
                None
            },
            amount_view(r.lens) == if r.enable_lens {
                Some(enb_get(enb_settings(content@), "lens"@, "amountday"@))
            } else {
                None
            },
            effect_views(r.effects@) == effect_list(enb_settings(content@)),
            as_map(r.values@) == last_wins(joined_entries(r.settings@)),
    {
        let settings = Self::parse_settings(content);
        let enable_bloom = Self::flag(&settings, "effect", "enablebloom");
        let enable_lens = Self::flag(&settings, "effect", "enablelens");
        let enable_dof = Self::flag(&settings, "effect", "enabledepthoffield");
        let enable_ssao = Self::flag(&settings, "effect", "enablessao");
        let mut effects: Vec<EnbEffect> = Vec::new();
        effects.push(EnbEffect { name: "Bloom".to_string(), enabled: enable_bloom });
        effects.push(EnbEffect { name: "Lens".to_string(), enabled: enable_lens });
        effects.push(EnbEffect { name: "Depth of Field".to_string(), enabled: enable_dof });
        effects.push(EnbEffect { name: "Ambient Occlusion".to_string(), enabled: enable_ssao });
        effects.push(EnbEffect { name: "Adaptation".to_string(), enabled: Self::flag(&settings, "effect", "enableadaptation") });
        effects.push(EnbEffect { name: "Reflections".to_string(), enabled: Self::flag(&settings, "effect", "enablereflections") });
        effects.push(EnbEffect { name: "Water".to_string(), enabled: Self::flag(&settings, "effect", "enablewater") });
        effects.push(
            EnbEffect {
                name: "Subsurface Scattering".to_string(),
                enabled: Self::flag(&settings, "effect", "enablesubsurfacescattering"),
            },
        );
        assert(effect_views(effects@) =~= effect_list(enb_settings(content@)));
        let values = Self::joined_values(&settings);
        let brightness = Self::setting(&settings, "colorcorrection", "brightness");
        let gamma = Self::setting(&settings, "colorcorrection", "gammacurve");
        let bloom = Self::amount(&settings, enable_bloom, "bloom");
        let lens = Self::amount(&settings, enable_lens, "lens");
        EnbSummary {
            settings,
            brightness,
            gamma,
            bloom,
            lens,
            enable_bloom,
            enable_lens,
            enable_dof,
            enable_ssao,
            effects,
            values,
        }
    }
}

} // verus!
