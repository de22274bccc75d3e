//! The FOMOD wizard as the UI sees it: the choices it sends back, and the
//! preview images of its options, read from the resources mod.
use vstd::prelude::*;
use crate::base64::{base64, encode};
use crate::models::OperationResult;
use crate::services::fomod_service::{lemma_selections_error_same, selection_ok, selections_error, step_views, wizard_step, FomodService, InstallStep, Selection};
use crate::services::load_order_validator::{join_path, join_path_exec};
use crate::services::preset_manager::data_url;
use crate::text::{
    chars_of, contains, contains_str, eq_str, lower_chars, lowercase, push_all, push_str, replace_ch, replace_char, split,
    split_at_char, string_of, strs, to_lower, views,
};

verus! {

/// The plugins the user chose in one group of one wizard step.
pub struct SelectionItem {
    pub step_index: usize,
    pub group_index: usize,
    pub plugin_indices: Vec<usize>,
}

/// The wizard steps shown to the user.
pub struct FomodConfig {
    pub steps: Vec<InstallStep>,
}

/// What the UI asks to install.
pub struct InstallFomodRequest {
    pub source_folder: String,
    pub output_folder: String,
    pub selections: Vec<SelectionItem>,
    pub confirmed_resolution: Option<(u32, u32)>,
    pub confirmed_gpu: Option<String>,
    pub upscaler_mode: Option<String>,
}

/// The folder the wizard's resources are installed in.
pub open spec fn resources_folder(mods_folder: Seq<char>) -> Seq<char> {
    join_path(mods_folder, "Fallen World FOMOD Resources"@)
}

/// The non-empty pieces of `s` between slashes.
pub open spec fn path_parts(s: Seq<char>) -> Seq<Seq<char>> {
    split(s, '/').filter(|p: Seq<char>| p.len() > 0)
}

/// `dir` with each part appended in turn.
pub open spec fn join_all(dir: Seq<char>, parts: Seq<Seq<char>>) -> Seq<char>
    decreases parts.len(),
{
    if parts.len() == 0 {
        dir
    } else {
        join_path(join_all(dir, parts.drop_last()), parts.last())
    }
}

/// The file a preview image path names under the resources folder, or why
/// it is refused (it may not climb out with `..`).
pub open spec fn image_file_of(mods_folder: Seq<char>, image_path: Seq<char>) -> Result<Seq<char>, Seq<char>> {
    let rel = replace_char(image_path, '\\', '/');
    if contains(rel, ".."@) {
        Err("Invalid image path"@)
    } else {
        Ok(join_all(resources_folder(mods_folder), path_parts(rel)))
    }
}

/// The media type of an image by its extension (compared in lower case).
pub open spec fn mime_of(ext: Option<Seq<char>>) -> Seq<char> {
    match ext {
        Some(e) => {
            let l = lowercase(e);
            if l == "jpg"@ || l == "jpeg"@ {
                "image/jpeg"@
            } else if l == "webp"@ {
                "image/webp"@
            } else if l == "bmp"@ {
                "image/bmp"@
            } else if l == "gif"@ {
                "image/gif"@
            } else {
                "image/png"@
            }
        },
        None => "image/png"@,
    }
}

/// The wizard's choices as selections.
pub open spec fn item_selections(items: Seq<SelectionItem>) -> Seq<Selection> {
    items.map_values(
        |it: SelectionItem|
            Selection { step_index: it.step_index, group_index: it.group_index, plugin_indices: it.plugin_indices },
    )
}

/// The wizard's choices as the installer takes them.
pub fn to_selections(items: Vec<SelectionItem>) -> (r: Vec<Selection>)
    ensures
        r@.len() == items@.len(),
        forall|i: int|
            0 <= i < r@.len() ==> (#[trigger] r@[i]).step_index == items@[i].step_index && r@[i].group_index
                == items@[i].group_index && r@[i].plugin_indices@ == items@[i].plugin_indices@,
{
    let mut r: Vec<Selection> = Vec::new();
    let ghost src = items@;
    let mut items = items;
    let mut rev: Vec<Selection> = Vec::new();
    while items.len() > 0
        invariant
            items@.len() <= src.len(),
            items@ == src.take(items@.len() as int),
            rev@.len() == src.len() - items@.len(),
            forall|k: int|
                0 <= k < rev@.len() ==> (#[trigger] rev@[k]).step_index == src[src.len() - 1 - k].step_index
                    && rev@[k].group_index == src[src.len() - 1 - k].group_index && rev@[k].plugin_indices@
                    == src[src.len() - 1 - k].plugin_indices@,
        decreases items@.len(),
    {
        let it = items.pop().unwrap();
        rev.push(Selection { step_index: it.step_index, group_index: it.group_index, plugin_indices: it.plugin_indices });
        assert(items@ =~= src.take(items@.len() as int));
    }
    while rev.len() > 0
        invariant
            rev@.len() + r@.len() == src.len(),
            forall|k: int|
                0 <= k < rev@.len() ==> (#[trigger] rev@[k]).step_index == src[src.len() - 1 - k].step_index
                    && rev@[k].group_index == src[src.len() - 1 - k].group_index && rev@[k].plugin_indices@
                    == src[src.len() - 1 - k].plugin_indices@,
            forall|k: int|
                0 <= k < r@.len() ==> (#[trigger] r@[k]).step_index == src[k].step_index && r@[k].group_index
                    == src[k].group_index && r@[k].plugin_indices@ == src[k].plugin_indices@,
        decreases rev@.len(),
    {
        let s = rev.pop().unwrap();
        r.push(s);
    }
    r
}

/// The steps the wizard shows, in order (no welcome or final pages).
pub fn wizard_steps(all: Vec<InstallStep>) -> (r: Vec<InstallStep>)
    ensures
        r@ == all@.filter(|s: InstallStep| wizard_step(s.name@)),
{
    let ghost src = all@;
    let mut rest = all;
    let n = rest.len();
    let mut r: Vec<InstallStep> = Vec::new();
    let mut k: usize = 0;
    assert(src.take(0).filter(|s: InstallStep| wizard_step(s.name@)) =~= Seq::<InstallStep>::empty());
    assert(src.skip(0) =~= src);
    while rest.len() > 0
        invariant
            k <= src.len() == n,
            rest@ == src.skip(k as int),
            r@ == src.take(k as int).filter(|s: InstallStep| wizard_step(s.name@)),
        decreases rest@.len(),
    {
        let step = rest.remove(0);
        proof {
            assert(step == src[k as int]);
            assert(src.take(k + 1) =~= src.take(k as int).push(src[k as int]));
            src.take(k as int).lemma_filter_push(src[k as int], |s: InstallStep| wizard_step(s.name@));
            assert(rest@ =~= src.skip(k + 1));
        }
        let l = lower_chars(&chars_of(step.name.as_str()));
        if !contains_str(&l, "welcome") && !contains_str(&l, "final") && !contains_str(&l, "installation complete") {
            r.push(step);
        }
        k += 1;
    }
    assert(src.take(k as int) =~= src);
    r
}

/// What a FOMOD install works on: the wizard steps of the parsed
/// configuration and the user's choices, or the failure to report (the
/// configuration did not parse, or a choice is out of range).
pub fn prepare_install(config: Result<Vec<InstallStep>, String>, items: Vec<SelectionItem>) -> (r: Result<
    (Vec<InstallStep>, Vec<Selection>),
    OperationResult,
>)
    ensures
        match config {
            Err(e) => r matches Err(o) && !o.success && o.message@ == "Failed to parse FOMOD config: "@ + e@,
            Ok(all) => {
                let steps = all@.filter(|s: InstallStep| wizard_step(s.name@));
                match r {
                    Ok((st, sel)) => st@ == steps && sel@.len() == items@.len() && (forall|i: int|
                        0 <= i < sel@.len() ==> selection_ok(step_views(steps), #[trigger] sel@[i])) && (forall|i: int|
                        0 <= i < sel@.len() ==> (#[trigger] sel@[i]).step_index == items@[i].step_index
                            && sel@[i].group_index == items@[i].group_index && sel@[i].plugin_indices@
                            == items@[i].plugin_indices@),
                    Err(o) => !o.success && (selections_error(step_views(steps), item_selections(items@)) matches Some(t)
                        && o.message@ == "Invalid selections: "@ + t) && !(forall|i: int|
                        0 <= i < items@.len() ==> #[trigger] selection_ok(
                            step_views(steps),
                            Selection {
                                step_index: items@[i].step_index,
                                group_index: items@[i].group_index,
                                plugin_indices: items@[i].plugin_indices,
                            },
                        )),
                }
            },
        },
{
    match config {
        Err(e) => {
            let mut m: Vec<char> = Vec::new();
            push_str(&mut m, "Failed to parse FOMOD config: ");
            push_str(&mut m, e.as_str());
            Err(OperationResult { success: false, message: string_of(&m) })
        },
        Ok(all) => {
            let steps = wizard_steps(all);
            let ghost iv = items@;
            let selections = to_selections(items);
            match FomodService::validate_selections(&steps, &selections) {
                Ok(()) => Ok((steps, selections)),
                Err(e) => {
                    proof {
                        let i = choose|i: int| 0 <= i < selections@.len() && !selection_ok(step_views(steps@), #[trigger] selections@[i]);
                        let s2 = Selection {
                            step_index: iv[i].step_index,
                            group_index: iv[i].group_index,
                            plugin_indices: iv[i].plugin_indices,
                        };
                        assert(s2.plugin_indices@ == selections@[i].plugin_indices@);
                        assert(selection_ok(step_views(steps@), s2) == selection_ok(step_views(steps@), selections@[i]));
                        lemma_selections_error_same(step_views(steps@), selections@, item_selections(iv));
                    }
                    let mut m: Vec<char> = Vec::new();
                    push_str(&mut m, "Invalid selections: ");
                    let ghost pre = m@;
                    push_str(&mut m, e.as_str());
                    proof {
                        reveal_strlit("Invalid selections: ");
                    }
                    Err(OperationResult { success: false, message: string_of(&m) })
                },
            }
        },
    }
}

/// The report of a FOMOD install after the files were copied, or why not.
pub fn install_outcome(installed: Result<(), String>) -> (r: OperationResult)
    ensures
        r.success == installed is Ok,
        r.message@ == match installed {
            Ok(_) => "FOMOD options installed successfully"@,
            Err(e) => "Installation failed: "@ + e@,
        },
{
    match installed {
        Ok(()) => OperationResult { success: true, message: "FOMOD options installed successfully".to_string() },
        Err(e) => {
            let mut m: Vec<char> = Vec::new();
            push_str(&mut m, "Installation failed: ");
            push_str(&mut m, e.as_str());
            OperationResult { success: false, message: string_of(&m) }
        },
    }
}

/// The file of a preview image: the path made of `/`-separated parts (a
/// `\` counts as `/`) under the resources folder of `mods_folder`; refused
/// when it holds `..`.
pub fn image_file(mods_folder: &str, image_path: &str) -> (r: Result<String, String>)
    ensures
        match r {
            Ok(f) => image_file_of(mods_folder@, image_path@) == Ok::<Seq<char>, Seq<char>>(f@),
            Err(e) => image_file_of(mods_folder@, image_path@) == Err::<Seq<char>, Seq<char>>(e@),
        },
{
    let rel = replace_ch(&chars_of(image_path), '\\', '/');
    if contains_str(&rel, "..") {
        return Err("Invalid image path".to_string());
    }
    let pieces = split_at_char(&rel, '/');
    let ghost pv = views(pieces@);
    let mut full = join_path_exec(mods_folder, "Fallen World FOMOD Resources");
    let ghost base = full@;
    let mut i: usize = 0;
    assert(pv.take(0).filter(|p: Seq<char>| p.len() > 0) =~= Seq::<Seq<char>>::empty());
    while i < pieces.len()
        invariant
            i <= pieces@.len(),
            pv == views(pieces@),
            pv == split(rel@, '/'),
            base == resources_folder(mods_folder@),
            full@ == join_all(base, pv.take(i as int).filter(|p: Seq<char>| p.len() > 0)),
        decreases pieces@.len() - i,
    {
        let ghost before = pv.take(i as int).filter(|p: Seq<char>| p.len() > 0);
        assert(pv.take(i + 1) =~= pv.take(i as int).push(pv[i as int]));
        proof {
            pv.take(i as int).lemma_filter_push(pv[i as int], |p: Seq<char>| p.len() > 0);
        }
        if pieces[i].len() > 0 {
            let f = string_of(&full);
            full = join_path_exec(f.as_str(), string_of(&pieces[i]).as_str());
            assert(before.push(pv[i as int]).drop_last() =~= before);
        }
        i += 1;
    }
    assert(pv.take(pieces@.len() as int) =~= pv);
    Ok(string_of(&full))
}

/// The `data:` URL of an image with extension `ext` and bytes `data`.
pub fn image_data_url(ext: Option<&str>, data: &[u8]) -> (r: String)
    ensures
        r@ == data_url(
            mime_of(
                match ext {
                    Some(e) => Some(e@),
                    None => None,
                },
            ),
            data@,
        ),
{
    let mime = match ext {
        Some(e) => {
            let l = to_lower(e);
            let lc = chars_of(l.as_str());
            if eq_str(&lc, "jpg") || eq_str(&lc, "jpeg") {
                "image/jpeg"
            } else if eq_str(&lc, "webp") {
                "image/webp"
            } else if eq_str(&lc, "bmp") {
                "image/bmp"
            } else if eq_str(&lc, "gif") {
                "image/gif"
            } else {
                "image/png"
            }
        },
        None => "image/png",
    };
    let mut v: Vec<char> = Vec::new();
    push_str(&mut v, "data:");
    push_str(&mut v, mime);
    push_str(&mut v, ";base64,");
    let e = encode(data);
    push_all(&mut v, &e);
    string_of(&v)
}

/// Standard base64 with `=` padding.
pub fn base64_encode(data: &[u8]) -> (r: String)
    ensures
        r@ == base64(data@),
{
    string_of(&encode(data))
}

} // verus!
