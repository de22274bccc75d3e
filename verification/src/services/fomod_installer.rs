//! Installing the chosen FOMOD options: the safety checks, what gets copied
//! where, how failures are reported, and the resolution edits of the physics
//! fix INI. The copying itself is done by the caller.
use vstd::prelude::*;
use crate::services::fomod_service::{FileSpec, FileSpecView, InstallStep, Selection, StepView, step_views};
use crate::services::load_order_validator::join_path;
use crate::services::system_info::{BlockingProcess, proc_views};
use crate::format::{decimal, push_decimal};
use crate::text::{
    chars_of, contains, contains_str, eq_str, join, lower_chars, lowercase, push_all, push_str, replace_char,
    replace_ch, slice_of, string_of, strs,
};

use crate::services::load_order_validator::push_joined;

verus! {

/// The folder an install must target.
pub open spec fn optional_mods_name() -> Seq<char> {
    "Fallen World Optional Mods"@
}

/// The lower-cased name is exactly one of the executables that block an install.
pub open spec fn blocks_install(name: Seq<char>) -> bool {
    let n = lowercase(name);
    n == "fallout4.exe"@ || n == "f4se_loader.exe"@ || n == "modorganizer.exe"@ || n == "mo2.exe"@
}

/// `"- name"` for each blocking process, in order.
pub open spec fn blocker_lines(ps: Seq<(Seq<char>, u32)>) -> Seq<Seq<char>>
    decreases ps.len(),
{
    if ps.len() == 0 {
        seq![]
    } else {
        blocker_lines(ps.drop_last()) + if blocks_install(ps.last().0) {
            seq!["- "@ + ps.last().0]
        } else {
            seq![]
        }
    }
}

/// A file spec chosen by the selections, with the name of its plugin.
pub open spec fn chosen_files(steps: Seq<StepView>, sels: Seq<Selection>) -> Seq<(FileSpecView, Seq<char>)>
    decreases sels.len(),
{
    if sels.len() == 0 {
        seq![]
    } else {
        chosen_files(steps, sels.drop_last()) + chosen_in(steps, sels.last(), sels.last().plugin_indices@)
    }
}

/// The file specs of the chosen plugins of one selection (bad indices are skipped).
pub open spec fn chosen_in(steps: Seq<StepView>, sel: Selection, idxs: Seq<usize>) -> Seq<(FileSpecView, Seq<char>)>
    decreases idxs.len(),
{
    if idxs.len() == 0 || sel.step_index >= steps.len() || sel.group_index >= steps[sel.step_index as int].groups.len() {
        seq![]
    } else {
        let g = steps[sel.step_index as int].groups[sel.group_index as int];
        let i = idxs.last();
        chosen_in(steps, sel, idxs.drop_last()) + if i < g.plugins.len() {
            let p = g.plugins[i as int];
            p.files.map_values(|f: FileSpecView| (f, p.name))
        } else {
            seq![]
        }
    }
}

/// A relative source path with `/` separators and no leading or trailing `/`.
pub open spec fn normalized_source(rel: Seq<char>) -> Seq<char> {
    strip_slashes_end(strip_slashes_start(replace_char(rel, '\\', '/')))
}

pub open spec fn strip_slashes_start(s: Seq<char>) -> Seq<char>
    decreases s.len(),
{
    if s.len() > 0 && s[0] == '/' {
        strip_slashes_start(s.drop_first())
    } else {
        s
    }
}

pub open spec fn strip_slashes_end(s: Seq<char>) -> Seq<char>
    decreases s.len(),
{
    if s.len() > 0 && s.last() == '/' {
        strip_slashes_end(s.drop_last())
    } else {
        s
    }
}

/// The first twelve entries joined by newlines, then how many more there were.
pub open spec fn preview(items: Seq<Seq<char>>) -> Seq<char> {
    join(if items.len() > 12 { items.take(12) } else { items }, "\n"@) + if items.len() > 12 {
        "\n...and "@ + decimal((items.len() - 12) as nat) + " more"@
    } else {
        seq![]
    }
}

/// What `Regex::replace` of `pattern` with the replacement `rep` makes of
/// `text` (the first match replaced, `$` group references in `rep`
/// expanded; the text unchanged without a match).
pub uninterp spec fn regex_replace_first(pattern: Seq<char>, text: Seq<char>, rep: Seq<char>) -> Seq<char>;

/// Whether `pattern` matches somewhere in `text` (`Regex::is_match`).
pub uninterp spec fn regex_matches(pattern: Seq<char>, text: Seq<char>) -> bool;

/// The three line patterns of the physics fix INI.
pub open spec fn physics_pattern(p: Seq<char>) -> bool {
    p == "(?mi)^Resolution\\s*=.*"@ || p == "(?mi)^bUseTAA\\s*=.*"@ || p == "(?mi)^SwapEffect\\s*=.*"@
}

/// `regex::Regex::is_match` of one of the physics fix patterns (valid
/// constants, so building them cannot fail).
#[verifier::external_body]
pub(crate) fn regex_is_match(pattern: &str, text: &str) -> (b: bool)
    requires
        physics_pattern(pattern@),
    ensures
        b == regex_matches(pattern@, text@),
{
    regex::Regex::new(pattern).unwrap().is_match(text)
}

/// `regex::Regex::replace` of one of the physics fix patterns with the
/// replacement `rep`.
#[verifier::external_body]
pub(crate) fn regex_replace(pattern: &str, text: &str, rep: &str) -> (r: String)
    requires
        physics_pattern(pattern@),
    ensures
        r@ == regex_replace_first(pattern@, text@, rep@),
{
    regex::Regex::new(pattern).unwrap().replace(text, rep).to_string()
}

/// One physics fix edit: applied only when the pattern matches.
pub open spec fn edit_if_match(pattern: Seq<char>, text: Seq<char>, rep: Seq<char>) -> Seq<char> {
    if regex_matches(pattern, text) {
        regex_replace_first(pattern, text, rep)
    } else {
        text
    }
}

/// `HighFPSPhysicsFix.ini` with the chosen resolution, TAA off for DLSS and
/// DLAA, and the flip-model swap effect.
pub open spec fn physics_ini(content: Seq<char>, w: u32, h: u32, upscaler: Option<Seq<char>>) -> Seq<char> {
    let a = edit_if_match(
        "(?mi)^Resolution\\s*=.*"@,
        content,
        "Resolution="@ + decimal(w as nat) + "x"@ + decimal(h as nat),
    );
    let b = if upscaler == Some("DLSS"@) || upscaler == Some("DLAA"@) {
        edit_if_match("(?mi)^bUseTAA\\s*=.*"@, a, "bUseTAA=0"@)
    } else {
        a
    };
    edit_if_match("(?mi)^SwapEffect\\s*=.*"@, b, "SwapEffect=4"@)
}

/// The listing of folder `dir`, if it could be read.
pub open spec fn listing_of(listings: Seq<(Seq<char>, Seq<Seq<char>>)>, dir: Seq<char>) -> Option<Seq<Seq<char>>>
    decreases listings.len(),
{
    if listings.len() == 0 {
        None
    } else if listings[0].0 == dir {
        Some(listings[0].1)
    } else {
        listing_of(listings.drop_first(), dir)
    }
}

/// The first name equal to `part` ignoring ASCII case.
pub open spec fn first_ci(names: Seq<Seq<char>>, part: Seq<char>) -> Option<Seq<char>>
    decreases names.len(),
{
    if names.len() == 0 {
        None
    } else if crate::text::eq_ignore_ascii_case(names[0], part) {
        Some(names[0])
    } else {
        first_ci(names.drop_first(), part)
    }
}

/// Following `parts` from `current`: each part as it is when that exists,
/// else the folder entry that matches it ignoring case; `None` when neither.
pub open spec fn walk_parts(
    current: Seq<char>,
    parts: Seq<Seq<char>>,
    existing: Seq<Seq<char>>,
    listings: Seq<(Seq<char>, Seq<Seq<char>>)>,
) -> Option<Seq<char>>
    decreases parts.len(),
{
    if parts.len() == 0 {
        Some(current)
    } else {
        let cand = join_path(current, parts[0]);
        if existing.contains(cand) {
            walk_parts(cand, parts.drop_first(), existing, listings)
        } else {
            match listing_of(listings, current) {
                None => None,
                Some(names) => match first_ci(names, parts[0]) {
                    Some(n) => walk_parts(join_path(current, n), parts.drop_first(), existing, listings),
                    None => None,
                },
            }
        }
    }
}

/// The file a source path of a file spec names under `root`: the path as
/// written when it exists, else found part by part ignoring case, else the
/// path as written.
pub open spec fn resolved_source(
    root: Seq<char>,
    rel: Seq<char>,
    existing: Seq<Seq<char>>,
    listings: Seq<(Seq<char>, Seq<Seq<char>>)>,
) -> Seq<char> {
    let n = normalized_source(rel);
    if n.len() == 0 {
        root
    } else if existing.contains(join_path(root, n)) {
        join_path(root, n)
    } else {
        match walk_parts(root, crate::text::split(n, '/'), existing, listings) {
            Some(p) => p,
            None => join_path(root, n),
        }
    }
}

pub open spec fn listing_views(v: Seq<(String, Vec<String>)>) -> Seq<(Seq<char>, Seq<Seq<char>>)> {
    v.map_values(|l: (String, Vec<String>)| (l.0@, crate::text::strs(l.1@)))
}

/// Position of the listing of `dir`.
fn find_listing(listings: &Vec<(String, Vec<String>)>, dir: &Vec<char>) -> (r: Option<usize>)
    ensures
        match r {
            Some(k) => k < listings@.len() && listing_of(listing_views(listings@), dir@) == Some(
                crate::text::strs(listings@[k as int].1@),
            ),
            None => listing_of(listing_views(listings@), dir@) is None,
        },
{
    let ghost lv = listing_views(listings@);
    let mut k: usize = 0;
    assert(lv.skip(0) =~= lv);
    while k < listings.len()
        invariant
            k <= listings@.len(),
            lv == listing_views(listings@),
            listing_of(lv, dir@) == listing_of(lv.skip(k as int), dir@),
        decreases listings@.len() - k,
    {
        assert(lv.skip(k as int)[0] == lv[k as int]);
        assert(lv.skip(k as int).drop_first() =~= lv.skip(k + 1));
        if crate::text::eq_str(dir, listings[k].0.as_str()) {
            return Some(k);
        }
        k += 1;
    }
    None
}

/// The first of `names` equal to `part` ignoring ASCII case.
fn find_ci(names: &Vec<String>, part: &Vec<char>) -> (r: Option<usize>)
    ensures
        match r {
            Some(k) => k < names@.len() && first_ci(crate::text::strs(names@), part@) == Some(names@[k as int]@),
            None => first_ci(crate::text::strs(names@), part@) is None,
        },
{
    let ghost nv = crate::text::strs(names@);
    let mut k: usize = 0;
    assert(nv.skip(0) =~= nv);
    while k < names.len()
        invariant
            k <= names@.len(),
            nv == crate::text::strs(names@),
            first_ci(nv, part@) == first_ci(nv.skip(k as int), part@),
        decreases names@.len() - k,
    {
        assert(nv.skip(k as int)[0] == names@[k as int]@);
        assert(nv.skip(k as int).drop_first() =~= nv.skip(k + 1));
        let lower_name = crate::text::to_ascii_lower(&chars_of(names[k].as_str()));
        let lower_part = crate::text::to_ascii_lower(part);
        if crate::text::eq_chars(&lower_name, &lower_part) {
            return Some(k);
        }
        k += 1;
    }
    None
}

/// What to do with one chosen file spec once its source is resolved.
#[derive(Debug, Clone)]
pub enum FileAction {
    /// Copy the source folder's contents into this folder.
    CopyFolder(String),
    /// Copy the source file to this path.
    CopyFile(String),
    /// The source is missing: the entry to report.
    Missing(String),
    /// Neither a file nor a folder spec.
    Skip,
}

/// The action as (kind, path or entry): kind 0 folder, 1 file, 2 missing, 3 skip.
pub open spec fn action_view(a: FileAction) -> (int, Seq<char>) {
    match a {
        FileAction::CopyFolder(d) => (0, d@),
        FileAction::CopyFile(d) => (1, d@),
        FileAction::Missing(e) => (2, e@),
        FileAction::Skip => (3, seq![]),
    }
}

/// The action for a file spec: a folder spec copies an existing source
/// folder into its destination, a file spec copies an existing source file
/// (to its destination, or under its own name into the output folder); a
/// source that is not there is reported; other specs are skipped.
pub open spec fn file_action_of(
    spec: FileSpecView,
    plugin: Seq<char>,
    output_root: Seq<char>,
    src_is_dir: bool,
    src_is_file: bool,
    src_name: Option<Seq<char>>,
) -> (int, Seq<char>) {
    let base = if spec.destination.len() == 0 {
        output_root
    } else {
        join_path(output_root, spec.destination)
    };
    let missing = spec.source + " (plugin: "@ + plugin + ")"@;
    if spec.file_type == "folder"@ {
        if src_is_dir {
            (0, base)
        } else {
            (2, missing)
        }
    } else if spec.file_type == "file"@ {
        if src_is_file {
            (1, if spec.destination.len() == 0 {
                join_path(base, src_name->0)
            } else {
                base
            })
        } else {
            (2, missing)
        }
    } else {
        (3, seq![])
    }
}

pub struct FomodInstaller;

impl FomodInstaller {
    /// The install must target the optional-mods folder.
    pub fn validate_output_path(output_root: &str) -> (r: Result<(), String>)
        ensures
            r is Ok <==> contains(output_root@, optional_mods_name()),
            r matches Err(e) ==> e@ == "Safety check failed: output folder should be named 'Fallen World Optional Mods'"@,
    {
        let p = chars_of(output_root);
        if !contains_str(&p, "Fallen World Optional Mods") {
            return Err("Safety check failed: output folder should be named 'Fallen World Optional Mods'".to_owned());
        }
        Ok(())
    }

    /// Refuse to install while the game, F4SE or MO2 runs.
    pub fn check_blocking_processes(processes: &[BlockingProcess]) -> (r: Result<(), String>)
        ensures
            r is Ok <==> blocker_lines(proc_views(processes@)).len() == 0,
            r matches Err(e) ==> e@ == "Cannot install while these processes are running:\n"@ + join(
                blocker_lines(proc_views(processes@)),
                "\n"@,
            ) + "\n\nClose them and try again."@,
    {
        let ghost ps = proc_views(processes@);
        let mut lines: Vec<String> = Vec::new();
        let mut i: usize = 0;
        assert(ps.take(0) =~= Seq::<(Seq<char>, u32)>::empty());
        while i < processes.len()
            invariant
                i <= processes@.len(),
                ps == proc_views(processes@),
                strs(lines@) == blocker_lines(ps.take(i as int)),
            decreases processes@.len() - i,
        {
            assert(ps.take(i + 1).drop_last() =~= ps.take(i as int));
            assert(ps.take(i + 1).last() == (processes@[i as int].name@, processes@[i as int].pid));
            let c = chars_of(processes[i].name.as_str());
            let n = lower_chars(&c);
            let ghost before = strs(lines@);
            if eq_str(&n, "fallout4.exe") || eq_str(&n, "f4se_loader.exe") || eq_str(&n, "modorganizer.exe") || eq_str(
                &n,
                "mo2.exe",
            ) {
                let mut l: Vec<char> = Vec::new();
                push_str(&mut l, "- ");
                push_str(&mut l, processes[i].name.as_str());
                lines.push(string_of(&l));
                assert(strs(lines@) =~= before + seq!["- "@ + processes@[i as int].name@]);
            } else {
                assert(strs(lines@) =~= before + Seq::<Seq<char>>::empty());
            }
            i += 1;
        }
        assert(ps.take(ps.len() as int) =~= ps);
        if lines.len() > 0 {
            let mut m: Vec<char> = Vec::new();
            push_str(&mut m, "Cannot install while these processes are running:\n");
            push_joined(&mut m, &lines, "\n");
            push_str(&mut m, "\n\nClose them and try again.");
            return Err(string_of(&m));
        }
        Ok(())
    }

    /// Ultrawide: wider than 2:1.
    pub fn is_ultrawide_resolution(width: u32, height: u32) -> (b: bool)
        ensures
            b == (height > 0 && width > 2 * height),
    {
        if height == 0 {
            return false;
        }
        (width as u64) > 2 * (height as u64)
    }

    /// The gas mask support folder for an ultrawide display: 32:9 above 3:1,
    /// else 21:9.
    pub fn ultrawide_support_folder(width: u32, height: u32) -> (r: &'static str)
        ensures
            r@ == if width > 3 * height {
                "GasMask329Support"@
            } else {
                "GasMask219Support"@
            },
    {
        if (width as u64) > 3 * (height as u64) {
            "GasMask329Support"
        } else {
            "GasMask219Support"
        }
    }

    /// The file specs the selections choose, with their plugin's name, in
    /// selection order (selections and plugins out of range are skipped).
    pub fn chosen_files(steps: &[InstallStep], selections: &[Selection]) -> (r: Vec<(FileSpec, String)>)
        ensures
            r@.map_values(|x: (FileSpec, String)| (x.0@, x.1@)) == chosen_files(step_views(steps@), selections@),
    {
        let ghost sv = step_views(steps@);
        let mut out: Vec<(FileSpec, String)> = Vec::new();
        let mut s: usize = 0;
        assert(selections@.take(0) =~= Seq::<Selection>::empty());
        while s < selections.len()
            invariant
                s <= selections@.len(),
                sv == step_views(steps@),
                out@.map_values(|x: (FileSpec, String)| (x.0@, x.1@)) == chosen_files(sv, selections@.take(s as int)),
            decreases selections@.len() - s,
        {
            let sel = &selections[s];
            assert(selections@.take(s + 1).drop_last() =~= selections@.take(s as int));
            assert(selections@.take(s + 1).last() == *sel);
            let ghost base = out@.map_values(|x: (FileSpec, String)| (x.0@, x.1@));
            let mut k: usize = 0;
            assert(sel.plugin_indices@.take(0) =~= Seq::<usize>::empty());
            assert(base + chosen_in(sv, *sel, sel.plugin_indices@.take(0)) =~= base);
            while k < sel.plugin_indices.len()
                invariant
                    k <= sel.plugin_indices@.len(),
                    sv == step_views(steps@),
                    out@.map_values(|x: (FileSpec, String)| (x.0@, x.1@)) == base + chosen_in(
                        sv,
                        *sel,
                        sel.plugin_indices@.take(k as int),
                    ),
                decreases sel.plugin_indices@.len() - k,
            {
                let ghost idxs = sel.plugin_indices@.take(k + 1);
                assert(idxs.drop_last() =~= sel.plugin_indices@.take(k as int));
                assert(idxs.last() == sel.plugin_indices@[k as int]);
                let ghost before = out@.map_values(|x: (FileSpec, String)| (x.0@, x.1@));
                if sel.step_index < steps.len() && sel.group_index < steps[sel.step_index].groups.len() {
                    let group = &steps[sel.step_index].groups[sel.group_index];
                    assert(sv[sel.step_index as int] == steps@[sel.step_index as int]@);
                    assert(sv[sel.step_index as int].groups[sel.group_index as int] == group@);
                    let pi = sel.plugin_indices[k];
                    if pi < group.plugins.len() {
                        let plugin = &group.plugins[pi];
                        assert(group@.plugins[pi as int] == plugin@);
                        let mut f: usize = 0;
                        while f < plugin.files.len()
                            invariant
                                f <= plugin.files@.len(),
                                out@.map_values(|x: (FileSpec, String)| (x.0@, x.1@)) == before + plugin@.files.take(
                                    f as int,
                                ).map_values(|fs: FileSpecView| (fs, plugin@.name)),
                            decreases plugin.files@.len() - f,
                        {
                            let ghost b2 = out@.map_values(|x: (FileSpec, String)| (x.0@, x.1@));
                            let fs = &plugin.files[f];
                            let copy = FileSpec {
                                source: fs.source.clone(),
                                destination: fs.destination.clone(),
                                file_type: fs.file_type.clone(),
                            };
                            out.push((copy, plugin.name.clone()));
                            assert(plugin@.files[f as int] == fs@);
                            assert(out@.map_values(|x: (FileSpec, String)| (x.0@, x.1@)) =~= b2.push((fs@, plugin@.name)));
                            assert(plugin@.files.take(f + 1).map_values(|fs: FileSpecView| (fs, plugin@.name))
                                =~= plugin@.files.take(f as int).map_values(|fs: FileSpecView| (fs, plugin@.name)).push(
                                (fs@, plugin@.name),
                            ));
                            f += 1;
                        }
                        assert(plugin@.files.take(plugin.files@.len() as int) =~= plugin@.files);
                    } else {
                        assert(out@.map_values(|x: (FileSpec, String)| (x.0@, x.1@)) =~= before + Seq::<
                            (FileSpecView, Seq<char>),
                        >::empty());
                    }
                } else {
                    assert(out@.map_values(|x: (FileSpec, String)| (x.0@, x.1@)) =~= before + Seq::<
                        (FileSpecView, Seq<char>),
                    >::empty());
                }
                k += 1;
            }
            assert(sel.plugin_indices@.take(sel.plugin_indices@.len() as int) =~= sel.plugin_indices@);
            s += 1;
        }
        assert(selections@.take(selections@.len() as int) =~= selections@);
        out
    }

    /// Where a chosen file spec lands: the output folder itself for an empty
    /// destination, else the destination under it.
    pub fn destination_base(output_root: &str, destination: &str) -> (r: String)
        ensures
            r@ == if destination@.len() == 0 {
                output_root@
            } else {
                join_path(output_root@, destination@)
            },
    {
        if destination.is_empty() {
            return output_root.to_owned();
        }
        let v = crate::services::load_order_validator::join_path_exec(output_root, destination);
        string_of(&v)
    }

    /// The file a source path names under `source_root`: the path as written
    /// when it exists; else walked part by part, each part as written when it
    /// exists or else the first entry of its folder that matches it ignoring
    /// case; else the path as written. `existing` lists the paths found on
    /// disk and `listings` the folders that could be read, with their entries.
    pub fn resolve_source_path(
        source_root: &str,
        relative_source: &str,
        existing: &[String],
        listings: &Vec<(String, Vec<String>)>,
    ) -> (r: String)
        ensures
            r@ == resolved_source(source_root@, relative_source@, strs(existing@), listing_views(listings@)),
    {
        let normalized = Self::normalize_source(relative_source);
        if normalized.as_str().is_empty() {
            return source_root.to_string();
        }
        let direct = crate::services::load_order_validator::join_path_exec(source_root, normalized.as_str());
        if crate::services::load_order_validator::listed(existing, &direct) {
            return string_of(&direct);
        }
        let parts = crate::text::split_at_char(&chars_of(normalized.as_str()), '/');
        let ghost pv = crate::text::views(parts@);
        let ghost ex = strs(existing@);
        let ghost lv = listing_views(listings@);
        let mut current: Vec<char> = chars_of(source_root);
        let mut i: usize = 0;
        assert(pv.skip(0) =~= pv);
        while i < parts.len()
            invariant
                i <= parts@.len(),
                pv == crate::text::views(parts@),
                pv == crate::text::split(normalized@, '/'),
                ex == strs(existing@),
                lv == listing_views(listings@),
                normalized@ == normalized_source(relative_source@),
                normalized@.len() > 0,
                direct@ == join_path(source_root@, normalized@),
                !ex.contains(direct@),
                walk_parts(source_root@, pv, ex, lv) == walk_parts(current@, pv.skip(i as int), ex, lv),
            decreases parts@.len() - i,
        {
            assert(pv.skip(i as int)[0] == parts@[i as int]@);
            assert(pv.skip(i as int).drop_first() =~= pv.skip(i + 1));
            let cur_s = string_of(&current);
            let candidate = crate::services::load_order_validator::join_path_exec(cur_s.as_str(), string_of(&parts[i]).as_str());
            if crate::services::load_order_validator::listed(existing, &candidate) {
                current = candidate;
            } else {
                match find_listing(listings, &current) {
                    None => {
                        return string_of(&direct);
                    },
                    Some(k) => match find_ci(&listings[k].1, &parts[i]) {
                        None => {
                            return string_of(&direct);
                        },
                        Some(m) => {
                            current = crate::services::load_order_validator::join_path_exec(
                                cur_s.as_str(),
                                listings[k].1[m].as_str(),
                            );
                        },
                    },
                }
            }
            i += 1;
        }
        assert(pv.skip(parts@.len() as int) =~= Seq::<Seq<char>>::empty());
        string_of(&current)
    }

    /// The source path of a file spec, with `/` separators and without
    /// leading or trailing `/`.
    pub fn normalize_source(relative_source: &str) -> (r: String)
        ensures
            r@ == normalized_source(relative_source@),
    {
        let c = chars_of(relative_source);
        let s = replace_ch(&c, '\\', '/');
        let mut i: usize = 0;
        assert(s@.skip(0) =~= s@);
        while i < s.len() && s[i] == '/'
            invariant
                i <= s@.len(),
                forall|k: int| 0 <= k < i ==> #[trigger] s@[k] == '/',
                strip_slashes_start(s@) == strip_slashes_start(s@.skip(i as int)),
            decreases s@.len() - i,
        {
            assert(s@.skip(i as int).drop_first() =~= s@.skip(i + 1));
            i += 1;
        }
        let mut j: usize = s.len();
        proof {
            if i < s@.len() {
                assert(s@.skip(i as int)[0] == s@[i as int]);
            }
            assert(s@.skip(0) =~= s@);
        }
        let ghost st = s@.skip(i as int);
        assert(st.take(st.len() as int) =~= st);
        while j > i && s[j - 1] == '/'
            invariant
                i <= j <= s@.len(),
                st == s@.skip(i as int),
                strip_slashes_end(st) == strip_slashes_end(st.take(j - i)),
            decreases j,
        {
            assert(st.take(j - i).drop_last() =~= st.take(j - 1 - i));
            assert(st.take(j - i).last() == s@[j - 1]);
            j -= 1;
        }
        proof {
            if j > i {
                assert(st.take(j - i).last() == s@[j - 1]);
            }
            assert(st.take(j - i) =~= s@.subrange(i as int, j as int));
        }
        let r = slice_of(&s, i, j);
        string_of(&r)
    }

    /// The entry reported for a file spec whose source is missing.
    /// What to do with a chosen file spec whose resolved source is a folder
    /// (`src_is_dir`), a file (`src_is_file`, named `src_name`) or neither.
    pub fn file_action(
        spec: &FileSpec,
        plugin: &str,
        output_root: &str,
        src_is_dir: bool,
        src_is_file: bool,
        src_name: Option<&str>,
    ) -> (r: FileAction)
        requires
            src_is_file && spec.destination@.len() == 0 && spec.file_type@ == "file"@ ==> src_name is Some,
        ensures
            action_view(r) == file_action_of(
                spec@,
                plugin@,
                output_root@,
                src_is_dir,
                src_is_file,
                match src_name {
                    Some(n) => Some(n@),
                    None => None,
                },
            ),
    {
        let base = Self::destination_base(output_root, spec.destination.as_str());
        let kind = chars_of(spec.file_type.as_str());
        proof {
            reveal_strlit("folder");
            reveal_strlit("file");
        }
        if eq_str(&kind, "folder") {
            if src_is_dir {
                FileAction::CopyFolder(base)
            } else {
                FileAction::Missing(Self::missing_entry(spec.source.as_str(), plugin))
            }
        } else if eq_str(&kind, "file") {
            if src_is_file {
                if spec.destination.as_str().is_empty() {
                    match src_name {
                        Some(n) => {
                            let v = crate::services::load_order_validator::join_path_exec(base.as_str(), n);
                            FileAction::CopyFile(string_of(&v))
                        },
                        None => FileAction::Skip,
                    }
                } else {
                    FileAction::CopyFile(base)
                }
            } else {
                FileAction::Missing(Self::missing_entry(spec.source.as_str(), plugin))
            }
        } else {
            FileAction::Skip
        }
    }

    pub fn missing_entry(source: &str, plugin: &str) -> (r: String)
        ensures
            r@ == source@ + " (plugin: "@ + plugin@ + ")"@,
    {
        let mut v: Vec<char> = Vec::new();
        push_str(&mut v, source);
        push_str(&mut v, " (plugin: ");
        push_str(&mut v, plugin);
        push_str(&mut v, ")");
        string_of(&v)
    }

    /// The result of copying: missing sources come first, then copy failures;
    /// each list shows at most twelve entries and counts the rest.
    pub fn copy_outcome(missing: &Vec<String>, failures: &Vec<String>) -> (r: Result<(), String>)
        ensures
            missing@.len() > 0 ==> (r matches Err(e) && e@ == "Selected files not found:\n"@ + preview(strs(missing@))
                + "\n\nPlease verify the FOMOD package is complete."@),
            missing@.len() == 0 && failures@.len() > 0 ==> (r matches Err(e) && e@ == "Copy failures:\n"@ + preview(
                strs(failures@),
            )),
            missing@.len() == 0 && failures@.len() == 0 ==> r is Ok,
    {
        if missing.len() > 0 {
            let mut v: Vec<char> = Vec::new();
            push_str(&mut v, "Selected files not found:\n");
            push_preview(&mut v, missing);
            push_str(&mut v, "\n\nPlease verify the FOMOD package is complete.");
            return Err(string_of(&v));
        }
        if failures.len() > 0 {
            let mut v: Vec<char> = Vec::new();
            push_str(&mut v, "Copy failures:\n");
            push_preview(&mut v, failures);
            return Err(string_of(&v));
        }
        Ok(())
    }

    /// `HighFPSPhysicsFix.ini` edited for the confirmed resolution and upscaler.
    pub fn update_physics_ini(content: &str, width: u32, height: u32, upscaler_mode: Option<&str>) -> (r: String)
        ensures
            r@ == physics_ini(
                content@,
                width,
                height,
                match upscaler_mode {
                    Some(u) => Some(u@),
                    None => None,
                },
            ),
    {
        proof {
            reveal_strlit("(?mi)^Resolution\\s*=.*");
        }
        let mut rv: Vec<char> = Vec::new();
        push_str(&mut rv, "Resolution=");
        push_decimal(&mut rv, width as u64);
        push_str(&mut rv, "x");
        push_decimal(&mut rv, height as u64);
        let rep = string_of(&rv);
        let mut updated = content.to_owned();
        if regex_is_match("(?mi)^Resolution\\s*=.*", updated.as_str()) {
            updated = regex_replace("(?mi)^Resolution\\s*=.*", updated.as_str(), rep.as_str());
        }
        let dl = match upscaler_mode {
            Some(u) => {
                let uc = chars_of(u);
                eq_str(&uc, "DLSS") || eq_str(&uc, "DLAA")
            },
            None => false,
        };
        if dl {
            if regex_is_match("(?mi)^bUseTAA\\s*=.*", updated.as_str()) {
                updated = regex_replace("(?mi)^bUseTAA\\s*=.*", updated.as_str(), "bUseTAA=0");
            }
        }
        if regex_is_match("(?mi)^SwapEffect\\s*=.*", updated.as_str()) {
            updated = regex_replace("(?mi)^SwapEffect\\s*=.*", updated.as_str(), "SwapEffect=4");
        }
        updated
    }
}

/// Appends the preview of a list of entries.
fn push_preview(out: &mut Vec<char>, items: &Vec<String>)
    ensures
        final(out)@ == old(out)@ + preview(strs(items@)),
{
    let mut head: Vec<String> = Vec::new();
    let mut i: usize = 0;
    while i < items.len() && i < 12
        invariant
            i <= items@.len(),
            i <= 12,
            strs(head@) == strs(items@).take(i as int),
        decreases items@.len() - i,
    {
        let ghost before = strs(head@);
        head.push(items[i].clone());
        assert(strs(head@) =~= before.push(items@[i as int]@));
        assert(strs(items@).take(i + 1) =~= strs(items@).take(i as int).push(items@[i as int]@));
        i += 1;
    }
    assert(items@.len() <= 12 ==> strs(items@).take(items@.len() as int) =~= strs(items@));
    push_joined(out, &head, "\n");
    if items.len() > 12 {
        push_str(out, "\n...and ");
        push_decimal(out, (items.len() - 12) as u64);
        push_str(out, " more");
    }
}

} // verus!
