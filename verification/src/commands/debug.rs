//! The diagnostics report: what the launcher found of the system, the game,
//! its mods and F4SE, as the text shown to the user. The caller gathers the
//! facts.
use vstd::prelude::*;
use crate::format::{decimal, push_decimal, push_signed, signed_decimal};
use crate::models::Mod;
use crate::services::path_discovery::GamePaths;
use crate::text::{join, push_str, string_of, strs};

verus! {

/// One line per mod: its id and whether it is enabled.
pub open spec fn mod_lines(ms: Seq<Mod>) -> Seq<char>
    decreases ms.len(),
{
    if ms.len() == 0 {
        seq![]
    } else {
        mod_lines(ms.drop_last()) + "  - "@ + ms.last().id@ + ": "@ + if ms.last().enabled {
            "ENABLED"@
        } else {
            "disabled"@
        } + "\n"@
    }
}

/// The mod detection part: the count, and the mods themselves when there are
/// one to ten of them.
pub open spec fn mods_section(mods: Result<Vec<Mod>, String>) -> Seq<char> {
    match mods {
        Ok(ms) => "✓ Found "@ + decimal(ms@.len()) + " mods\n"@ + if 0 < ms@.len() <= 10 {
            mod_lines(ms@)
        } else {
            seq![]
        },
        Err(e) => "✗ Mod detection failed: "@ + e@ + "\n"@,
    }
}

pub open spec fn f4se_section(f4se: Option<String>) -> Seq<char> {
    match f4se {
        Some(p) => "✓ F4SE loader detected: "@ + p@ + "\n"@,
        None => "⚠ F4SE loader not found (will use Fallout4.exe)\n"@,
    }
}

pub open spec fn folder_lines(p: GamePaths) -> Seq<char> {
    "✓ Game root: "@ + p.game_root@ + "\n"@ + "✓ Mods folder: "@ + p.mods_folder@ + "\n"@
}

pub open spec fn mo2_line(root: Option<String>) -> Seq<char> {
    match root {
        Some(m) => "✓ MO2 detected: "@ + m@ + "\n"@,
        None => seq![],
    }
}

pub open spec fn profile_line(profile: Option<String>) -> Seq<char> {
    match profile {
        Some(pr) => "✓ Active profile: "@ + pr@ + "\n"@,
        None => seq![],
    }
}

/// The path part: the folders found, then the mods and F4SE; or why the
/// game was not found.
pub open spec fn paths_section(paths: Result<GamePaths, String>, mods: Result<Vec<Mod>, String>, f4se: Option<String>) -> Seq<
    char,
> {
    match paths {
        Ok(p) => folder_lines(p) + mo2_line(p.mo2_root) + profile_line(p.mo2_profile) + mods_section(mods) + f4se_section(
            f4se,
        ),
        Err(e) => "✗ Path discovery failed: "@ + e@ + "\n"@,
    }
}

pub open spec fn blocking_line(names: Seq<Seq<char>>) -> Seq<char> {
    if names.len() == 0 {
        "✓ No blocking processes detected\n"@
    } else {
        "⚠ Blocking processes: "@ + join(names, ", "@) + "\n"@
    }
}

/// The whole report.
pub open spec fn diagnostics_report(
    resolution: (u32, u32),
    gpu: Seq<char>,
    scale_percent: int,
    blocking: Seq<Seq<char>>,
    paths: Result<GamePaths, String>,
    mods: Result<Vec<Mod>, String>,
    f4se: Option<String>,
    log_path: Seq<char>,
    is_windows: bool,
    time: Seq<char>,
) -> Seq<char> {
    "✓ System Detection: Resolution "@ + decimal(resolution.0 as nat) + "x"@ + decimal(resolution.1 as nat) + ", GPU: "@
        + gpu + ", Scale: "@ + signed_decimal(scale_percent) + "%\n"@ + blocking_line(blocking) + paths_section(
        paths,
        mods,
        f4se,
    ) + "✓ Log file: "@ + log_path + "\n"@ + "✓ Platform: Windows="@ + if is_windows {
        "true"@
    } else {
        "false"@
    } + "\n"@ + "✓ System Time: "@ + time + "\n"@ + "\n✓ All diagnostics completed successfully!"@
}

fn push_mods(out: &mut Vec<char>, mods: &Result<Vec<Mod>, String>)
    ensures
        final(out)@ == old(out)@ + mods_section(*mods),
{
    match mods {
        Ok(ms) => {
            push_str(out, "✓ Found ");
            push_decimal(out, ms.len() as u64);
            push_str(out, " mods\n");
            let ghost head = out@;
            if ms.len() > 0 && ms.len() <= 10 {
                let mut i: usize = 0;
                assert(ms@.take(0) =~= Seq::<Mod>::empty());
                assert(out@ =~= head + mod_lines(ms@.take(0)));
                while i < ms.len()
                    invariant
                        i <= ms@.len(),
                        out@ == head + mod_lines(ms@.take(i as int)),
                    decreases ms@.len() - i,
                {
                    assert(ms@.take(i + 1).drop_last() =~= ms@.take(i as int));
                    assert(ms@.take(i + 1).last() == ms@[i as int]);
                    push_str(out, "  - ");
                    push_str(out, ms[i].id.as_str());
                    push_str(out, ": ");
                    if ms[i].enabled {
                        push_str(out, "ENABLED");
                    } else {
                        push_str(out, "disabled");
                    }
                    push_str(out, "\n");
                    i += 1;
                }
                assert(ms@.take(ms@.len() as int) =~= ms@);
            }
            assert(out@ =~= old(out)@ + mods_section(*mods));
        },
        Err(e) => {
            push_str(out, "✗ Mod detection failed: ");
            push_str(out, e.as_str());
            push_str(out, "\n");
        },
    }
}

fn push_paths(out: &mut Vec<char>, paths: &Result<GamePaths, String>, mods: &Result<Vec<Mod>, String>, f4se: &Option<String>)
    ensures
        final(out)@ == old(out)@ + paths_section(*paths, *mods, *f4se),
{
    match paths {
        Ok(p) => {
            push_str(out, "✓ Game root: ");
            push_str(out, p.game_root.as_str());
            push_str(out, "\n");
            push_str(out, "✓ Mods folder: ");
            push_str(out, p.mods_folder.as_str());
            push_str(out, "\n");
            let ghost a = out@;
            assert(a =~= old(out)@ + folder_lines(*p));
            match &p.mo2_root {
                Some(m) => {
                    push_str(out, "✓ MO2 detected: ");
                    push_str(out, m.as_str());
                    push_str(out, "\n");
                },
                None => {},
            }
            let ghost b = out@;
            assert(b =~= a + mo2_line(p.mo2_root));
            match &p.mo2_profile {
                Some(pr) => {
                    push_str(out, "✓ Active profile: ");
                    push_str(out, pr.as_str());
                    push_str(out, "\n");
                },
                None => {},
            }
            let ghost c = out@;
            assert(c =~= b + profile_line(p.mo2_profile));
            push_mods(out, mods);
            let ghost d = out@;
            match f4se {
                Some(f) => {
                    push_str(out, "✓ F4SE loader detected: ");
                    push_str(out, f.as_str());
                    push_str(out, "\n");
                },
                None => {
                    push_str(out, "⚠ F4SE loader not found (will use Fallout4.exe)\n");
                },
            }
            assert(out@ =~= d + f4se_section(*f4se));
            assert(out@ =~= old(out)@ + paths_section(*paths, *mods, *f4se));
        },
        Err(e) => {
            push_str(out, "✗ Path discovery failed: ");
            push_str(out, e.as_str());
            push_str(out, "\n");
        },
    }
}

/// The diagnostics report: the screen, GPU and display scale; the blocking
/// processes; the game folders, the mods and F4SE (when the game was found);
/// the log file, the platform and the time.
pub fn run_diagnostics(
    resolution: (u32, u32),
    gpu_vendor: &str,
    scale_percent: i32,
    blocking: &Vec<String>,
    paths: &Result<GamePaths, String>,
    mods: &Result<Vec<Mod>, String>,
    f4se: &Option<String>,
    log_path: &str,
    is_windows: bool,
    time: &str,
) -> (r: String)
    ensures
        r@ == diagnostics_report(
            resolution,
            gpu_vendor@,
            scale_percent as int,
            strs(blocking@),
            *paths,
            *mods,
            *f4se,
            log_path@,
            is_windows,
            time@,
        ),
{
    let mut out: Vec<char> = Vec::new();
    push_str(&mut out, "✓ System Detection: Resolution ");
    push_decimal(&mut out, resolution.0 as u64);
    push_str(&mut out, "x");
    push_decimal(&mut out, resolution.1 as u64);
    push_str(&mut out, ", GPU: ");
    push_str(&mut out, gpu_vendor);
    push_str(&mut out, ", Scale: ");
    push_signed(&mut out, scale_percent as i64);
    push_str(&mut out, "%\n");
    let ghost a = out@;
    if blocking.len() == 0 {
        push_str(&mut out, "✓ No blocking processes detected\n");
    } else {
        push_str(&mut out, "⚠ Blocking processes: ");
        crate::services::load_order_validator::push_joined(&mut out, blocking, ", ");
        push_str(&mut out, "\n");
    }
    assert(out@ =~= a + blocking_line(strs(blocking@)));
    let ghost b = out@;
    push_paths(&mut out, paths, mods, f4se);
    let ghost c = out@;
    push_str(&mut out, "✓ Log file: ");
    push_str(&mut out, log_path);
    push_str(&mut out, "\n");
    push_str(&mut out, "✓ Platform: Windows=");
    if is_windows {
        push_str(&mut out, "true");
    } else {
        push_str(&mut out, "false");
    }
    push_str(&mut out, "\n");
    push_str(&mut out, "✓ System Time: ");
    push_str(&mut out, time);
    push_str(&mut out, "\n");
    push_str(&mut out, "\n✓ All diagnostics completed successfully!");
    assert(out@ =~= diagnostics_report(
        resolution,
        gpu_vendor@,
        scale_percent as int,
        strs(blocking@),
        *paths,
        *mods,
        *f4se,
        log_path@,
        is_windows,
        time@,
    ));
    string_of(&out)
}

} // verus!
