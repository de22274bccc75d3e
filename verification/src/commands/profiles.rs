//! Moving the game's saves out of Mod Organizer 2: where they are, where
//! they go, and the report. The caller shows the folder picker and moves the
//! files.
use vstd::prelude::*;
use crate::models::OperationResult;
use crate::services::game_launcher::{first_existing, opt_view};
use crate::services::load_order_validator::{join_path, join_path_exec, listed};
use crate::services::path_discovery::GamePaths;
use crate::text::{chars_of, push_all, push_str, string_of, strs, trim, trimmed_str};

verus! {

/// The save folders looked for: the active profile's `saves`, then the
/// shared `profiles/Saves`.
pub open spec fn saves_candidates(mo2_root: Seq<char>, active: Seq<char>) -> Seq<Seq<char>> {
    seq![
        join_path(join_path(join_path(mo2_root, "profiles"@), active), "saves"@),
        join_path(join_path(mo2_root, "profiles"@), "Saves"@),
    ]
}

/// The saves folder to move, or the report why there is none.
pub open spec fn saves_source(paths: Result<GamePaths, String>, existing: Seq<Seq<char>>) -> Result<Seq<char>, Seq<char>> {
    match paths {
        Err(e) => Err(e@),
        Ok(p) => match p.mo2_root {
            None => Err("MO2 root not found"@),
            Some(root) => {
                let active = match p.mo2_profile {
                    Some(a) => a@,
                    None => seq![],
                };
                let cands = saves_candidates(root@, active);
                match first_existing(cands, existing) {
                    Some(c) => Ok(c),
                    None => Err("No saves folder found. Checked:\n  "@ + cands[0] + "\n  "@ + cands[1]),
                }
            },
        },
    }
}

fn fail(message: String) -> (r: OperationResult)
    ensures
        !r.success,
        r.message@ == message@,
{
    OperationResult { success: false, message }
}

/// The saves folder of the active MO2 profile (or the shared one) that
/// exists (`existing` lists the candidates found on disk), or the report.
pub fn backup_saves_source(paths: &Result<GamePaths, String>, existing: &[String]) -> (r: Result<String, OperationResult>)
    ensures
        match r {
            Ok(s) => saves_source(*paths, strs(existing@)) == Ok::<Seq<char>, Seq<char>>(s@),
            Err(o) => !o.success && saves_source(*paths, strs(existing@)) == Err::<Seq<char>, Seq<char>>(o.message@),
        },
{
    match paths {
        Err(e) => Err(fail(string_of(&chars_of(e.as_str())))),
        Ok(p) => match &p.mo2_root {
            None => Err(fail("MO2 root not found".to_string())),
            Some(root) => {
                let active = match &p.mo2_profile {
                    Some(a) => string_of(&chars_of(a.as_str())),
                    None => String::new(),
                };
                let profiles = string_of(&join_path_exec(root.as_str(), "profiles"));
                let own = string_of(&join_path_exec(profiles.as_str(), active.as_str()));
                let c0 = join_path_exec(own.as_str(), "saves");
                let c1 = join_path_exec(profiles.as_str(), "Saves");
                let ghost cands = saves_candidates(root@, active@);
                assert(cands[0] == c0@ && cands[1] == c1@);
                assert(cands.drop_first()[0] == c1@);
                assert(cands.drop_first().drop_first().len() == 0);
                if listed(existing, &c0) {
                    return Ok(string_of(&c0));
                }
                assert(first_existing(cands, strs(existing@)) == first_existing(cands.drop_first(), strs(existing@)));
                if listed(existing, &c1) {
                    return Ok(string_of(&c1));
                }
                assert(first_existing(cands.drop_first(), strs(existing@)) == first_existing(
                    cands.drop_first().drop_first(),
                    strs(existing@),
                ));
                let mut m: Vec<char> = Vec::new();
                push_str(&mut m, "No saves folder found. Checked:\n  ");
                push_all(&mut m, &c0);
                push_str(&mut m, "\n  ");
                push_all(&mut m, &c1);
                Err(fail(string_of(&m)))
            },
        },
    }
}

/// Where the saves go: a `Fallout4_Saves_FallenWorld` folder in the folder
/// the user picked (`picked` is the picker's output, `None` when it could not
/// be shown), or the report.
pub fn backup_saves_destination(picked: Option<&str>) -> (r: Result<String, OperationResult>)
    ensures
        match picked {
            None => r matches Err(o) && !o.success && o.message@ == "Could not open folder picker"@,
            Some(out) => if trim(out@).len() == 0 {
                r matches Err(o) && !o.success && o.message@ == "No destination selected"@
            } else {
                r matches Ok(d) && d@ == join_path(trim(out@), "Fallout4_Saves_FallenWorld"@)
            },
        },
{
    match picked {
        None => Err(fail("Could not open folder picker".to_string())),
        Some(out) => {
            let t = trimmed_str(out);
            if t.len() == 0 {
                return Err(fail("No destination selected".to_string()));
            }
            let dir = string_of(&t);
            Ok(string_of(&join_path_exec(dir.as_str(), "Fallout4_Saves_FallenWorld")))
        },
    }
}

/// The report of a move of the saves to `dest`: the copy's failure, or the
/// removal's outcome (looked at only when the copy succeeded).
pub fn backup_saves_outcome(dest: &str, copied: Result<(), String>, removed: Result<(), String>) -> (r: OperationResult)
    ensures
        r.success == (copied is Ok && removed is Ok),
        r.message@ == match copied {
            Err(e) => e@,
            Ok(_) => match removed {
                Ok(_) => "Saves moved to:\n"@ + dest@,
                Err(e) => "Saves copied but original could not be removed: "@ + e@,
            },
        },
{
    match copied {
        Err(e) => fail(e),
        Ok(()) => match removed {
            Ok(()) => {
                let mut m: Vec<char> = Vec::new();
                push_str(&mut m, "Saves moved to:\n");
                push_str(&mut m, dest);
                OperationResult { success: true, message: string_of(&m) }
            },
            Err(e) => {
                let mut m: Vec<char> = Vec::new();
                push_str(&mut m, "Saves copied but original could not be removed: ");
                push_str(&mut m, e.as_str());
                fail(string_of(&m))
            },
        },
    }
}

} // verus!
