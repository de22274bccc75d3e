//! The INI commands of the UI: applying a resolution to the profile INIs and
//! the physics fix, and the reports of saved edits.
use vstd::prelude::*;
use crate::format::{decimal, push_decimal};
use crate::models::OperationResult;
use crate::services::fomod_installer::{edit_if_match, regex_is_match, regex_replace};
use crate::services::ini_manager::IniChange;
use crate::text::{chars_of, eq_str, push_str, string_of};

verus! {

/// `HighFPSPhysicsFix.ini` with the chosen resolution, and TAA off for DLSS
/// and DLAA.
pub open spec fn resolution_physics_ini(content: Seq<char>, w: u32, h: u32, upscaler: Option<Seq<char>>) -> Seq<char> {
    let a = edit_if_match(
        "(?mi)^Resolution\\s*=.*"@,
        content,
        "Resolution="@ + decimal(w as nat) + "x"@ + decimal(h as nat),
    );
    if upscaler == Some("DLSS"@) || upscaler == Some("DLAA"@) {
        edit_if_match("(?mi)^bUseTAA\\s*=.*"@, a, "bUseTAA=0"@)
    } else {
        a
    }
}

pub open spec fn resolution_msg(w: u32, h: u32) -> Seq<char> {
    "Resolution set to "@ + decimal(w as nat) + "x"@ + decimal(h as nat)
}

fn push_resolution(out: &mut Vec<char>, w: u32, h: u32)
    ensures
        final(out)@ == old(out)@ + decimal(w as nat) + "x"@ + decimal(h as nat),
{
    push_decimal(out, w as u64);
    push_str(out, "x");
    push_decimal(out, h as u64);
}

/// The edits of `Fallout4Prefs.ini` that set the resolution.
pub fn resolution_changes(width: u32, height: u32) -> (r: Vec<IniChange>)
    ensures
        r@.len() == 2,
        r@[0].section@ == "Display"@ && r@[0].key@ == "iSize W"@ && r@[0].value@ == decimal(width as nat),
        r@[1].section@ == "Display"@ && r@[1].key@ == "iSize H"@ && r@[1].value@ == decimal(height as nat),
{
    let mut w: Vec<char> = Vec::new();
    push_decimal(&mut w, width as u64);
    let mut h: Vec<char> = Vec::new();
    push_decimal(&mut h, height as u64);
    let mut r: Vec<IniChange> = Vec::new();
    r.push(IniChange { section: "Display".to_string(), key: "iSize W".to_string(), value: string_of(&w) });
    r.push(IniChange { section: "Display".to_string(), key: "iSize H".to_string(), value: string_of(&h) });
    r
}

/// `HighFPSPhysicsFix.ini` with the chosen resolution, and TAA off for DLSS
/// and DLAA.
pub fn physics_resolution(content: &str, width: u32, height: u32, upscaler: Option<&str>) -> (r: String)
    ensures
        r@ == resolution_physics_ini(
            content@,
            width,
            height,
            match upscaler {
                Some(u) => Some(u@),
                None => None,
            },
        ),
{
    proof {
        reveal_strlit("(?mi)^Resolution\\s*=.*");
        reveal_strlit("(?mi)^bUseTAA\\s*=.*");
    }
    let mut rv: Vec<char> = Vec::new();
    push_str(&mut rv, "Resolution=");
    push_resolution(&mut rv, width, height);
    let rep = string_of(&rv);
    let mut updated = content.to_owned();
    if regex_is_match("(?mi)^Resolution\\s*=.*", updated.as_str()) {
        updated = regex_replace("(?mi)^Resolution\\s*=.*", updated.as_str(), rep.as_str());
    }
    let dl = match upscaler {
        Some(u) => {
            let uc = chars_of(u);
            eq_str(&uc, "DLSS") || eq_str(&uc, "DLAA")
        },
        None => false,
    };
    if dl {
        if regex_is_match("(?mi)^bUseTAA\\s*=.*", updated.as_str()) {
            updated = regex_replace("(?mi)^bUseTAA\\s*=.*", updated.as_str(), "bUseTAA=0");
        }
    }
    updated
}

/// The report of applying a resolution: the failure of the prefs edit, or
/// success, with a warning when the physics fix INI (edited when present)
/// could not be.
pub fn apply_resolution(width: u32, height: u32, prefs: Result<(), String>, physics: Option<Result<(), String>>) -> (r:
    OperationResult)
    ensures
        r.success == prefs is Ok,
        r.message@ == match prefs {
            Err(e) => e@,
            Ok(_) => match physics {
                Some(Err(e)) => resolution_msg(width, height) + " (HighFPS INI warning: "@ + e@ + ")"@,
                _ => resolution_msg(width, height),
            },
        },
{
    match prefs {
        Err(e) => OperationResult { success: false, message: e },
        Ok(()) => {
            let mut m: Vec<char> = Vec::new();
            push_str(&mut m, "Resolution set to ");
            push_resolution(&mut m, width, height);
            match physics {
                Some(Err(e)) => {
                    push_str(&mut m, " (HighFPS INI warning: ");
                    push_str(&mut m, e.as_str());
                    push_str(&mut m, ")");
                },
                _ => {},
            }
            OperationResult { success: true, message: string_of(&m) }
        },
    }
}

/// The report of saving edits of one INI file.
pub fn save_ini_changes(file: &str, count: usize, saved: Result<(), String>) -> (r: OperationResult)
    ensures
        r.success == saved is Ok,
        r.message@ == match saved {
            Ok(_) => "Saved "@ + file@ + " ("@ + decimal(count as nat) + " change(s))"@,
            Err(e) => e@,
        },
{
    match saved {
        Err(e) => OperationResult { success: false, message: e },
        Ok(()) => {
            let mut m: Vec<char> = Vec::new();
            push_str(&mut m, "Saved ");
            push_str(&mut m, file);
            push_str(&mut m, " (");
            push_decimal(&mut m, count as u64);
            push_str(&mut m, " change(s))");
            OperationResult { success: true, message: string_of(&m) }
        },
    }
}

/// The report of setting one value: why the INI could not be read or
/// written, or the value set.
pub fn update_ini_value(section: &str, key: &str, value: &str, read: Result<(), String>, written: Result<(), String>) -> (r:
    OperationResult)
    ensures
        r.success == (read is Ok && written is Ok),
        r.message@ == match read {
            Err(e) => "Cannot read INI: "@ + e@,
            Ok(_) => match written {
                Err(e) => e@,
                Ok(_) => "Set "@ + section@ + "."@ + key@ + "="@ + value@,
            },
        },
{
    match read {
        Err(e) => {
            let mut m: Vec<char> = Vec::new();
            push_str(&mut m, "Cannot read INI: ");
            push_str(&mut m, e.as_str());
            OperationResult { success: false, message: string_of(&m) }
        },
        Ok(()) => match written {
            Err(e) => OperationResult { success: false, message: e },
            Ok(()) => {
                let mut m: Vec<char> = Vec::new();
                push_str(&mut m, "Set ");
                push_str(&mut m, section);
                push_str(&mut m, ".");
                push_str(&mut m, key);
                push_str(&mut m, "=");
                push_str(&mut m, value);
                OperationResult { success: true, message: string_of(&m) }
            },
        },
    }
}

} // verus!
