//! Decisions about running processes and display adapters. The process list
//! and the adapter descriptions are read from the system by the caller.
use vstd::prelude::*;
use crate::text::{chars_of, contains, contains_str, eq_str, lower_chars, lowercase, strs};

verus! {

/// A running process.
#[derive(Debug, Clone)]
pub struct BlockingProcess {
    pub name: String,
    pub pid: u32,
}

/// Result of the startup MO2 guard.
#[derive(Debug, Clone)]
pub struct Mo2StartupResult {
    /// MO2 was running and has been closed automatically (normal launch).
    pub killed_mo2: bool,
    /// The launcher was started through MO2's VFS.
    pub under_mo2: bool,
}

/// Live running/stopped state for the dashboard "Game Status" widget.
#[derive(Debug, Clone)]
pub struct ProcessStatus {
    pub fallout4_running: bool,
    pub mo2_running: bool,
    pub f4se_running: bool,
}

/// A process as (name, pid).
pub open spec fn proc_views(ps: Seq<BlockingProcess>) -> Seq<(Seq<char>, u32)> {
    ps.map_values(|p: BlockingProcess| (p.name@, p.pid))
}

/// The lower-cased name contains one of the executables that block an install.
pub open spec fn is_blocker(name: Seq<char>) -> bool {
    let n = lowercase(name);
    contains(n, "fallout4.exe"@) || contains(n, "f4se_loader.exe"@) || contains(n, "modorganizer.exe"@)
        || contains(n, "mo2.exe"@)
}

/// The processes of `ps` that block an install, in order.
pub open spec fn blockers_of(ps: Seq<(Seq<char>, u32)>) -> Seq<(Seq<char>, u32)>
    decreases ps.len(),
{
    if ps.len() == 0 {
        seq![]
    } else {
        blockers_of(ps.drop_last()) + if is_blocker(ps.last().0) {
            seq![ps.last()]
        } else {
            seq![]
        }
    }
}

/// Some process has exactly the lower-cased name `exe`.
pub open spec fn runs(ps: Seq<(Seq<char>, u32)>, exe: Seq<char>) -> bool {
    exists|i: int| 0 <= i < ps.len() && lowercase(#[trigger] ps[i].0) == exe
}

/// The lower-cased name is exactly MO2's executable.
pub open spec fn is_mo2(name: Seq<char>) -> bool {
    lowercase(name) == "modorganizer.exe"@ || lowercase(name) == "mo2.exe"@
}

/// The pids of the MO2 processes, in order.
pub open spec fn mo2_pids_of(ps: Seq<(Seq<char>, u32)>) -> Seq<u32>
    decreases ps.len(),
{
    if ps.len() == 0 {
        seq![]
    } else {
        mo2_pids_of(ps.drop_last()) + if is_mo2(ps.last().0) {
            seq![ps.last().1]
        } else {
            seq![]
        }
    }
}

/// An adapter description names a virtual or remote display adapter.
pub open spec fn skipped_adapter(d: Seq<char>) -> bool {
    contains(d, "virtual"@) || contains(d, "basic"@) || contains(d, "remote"@) || contains(d, "idd"@)
        || contains(d, "parsec"@) || contains(d, "citrix"@) || contains(d, "rdp"@) || contains(
        d,
        "meta"@,
    )
}

/// Adapter `i` is a real one and its lower-cased description contains `w`.
pub open spec fn adapter_mentions(descs: Seq<Seq<char>>, i: int, w: Seq<char>) -> bool {
    0 <= i < descs.len() && !skipped_adapter(lowercase(descs[i])) && contains(lowercase(descs[i]), w)
}

/// Adapter `i` is a real AMD card.
pub open spec fn amd_adapter(descs: Seq<Seq<char>>, i: int) -> bool {
    adapter_mentions(descs, i, "amd"@) || adapter_mentions(descs, i, "radeon"@)
}

/// The vendor the adapter descriptions point to: NVIDIA if any real adapter
/// is an NVIDIA card, else AMD, else Intel, else "Unknown".
pub open spec fn vendor_of_adapters(descs: Seq<Seq<char>>) -> Seq<char> {
    if exists|i: int| adapter_mentions(descs, i, "nvidia"@) {
        "NVIDIA"@
    } else if exists|i: int| amd_adapter(descs, i) {
        "AMD"@
    } else if exists|i: int| adapter_mentions(descs, i, "intel"@) {
        "Intel"@
    } else {
        "Unknown"@
    }
}

/// A process as (pid, parent pid, executable name).
pub open spec fn process_views(ps: Seq<(u32, u32, String)>) -> Seq<(u32, u32, Seq<char>)> {
    ps.map_values(|p: (u32, u32, String)| (p.0, p.1, p.2@))
}

/// The first process with pid `pid`.
pub open spec fn first_entry(ps: Seq<(u32, u32, Seq<char>)>, pid: u32) -> Option<(u32, u32, Seq<char>)>
    decreases ps.len(),
{
    if ps.len() == 0 {
        None
    } else if ps[0].0 == pid {
        Some(ps[0])
    } else {
        first_entry(ps.drop_first(), pid)
    }
}

/// The parent of process `my_pid` (a pid other than 0) is a process whose
/// lower-cased name contains `modorganizer`.
pub open spec fn parent_is_mo2(my_pid: u32, ps: Seq<(u32, u32, Seq<char>)>) -> bool {
    match first_entry(ps, my_pid) {
        Some(me) => me.1 != 0 && match first_entry(ps, me.1) {
            Some(p) => contains(lowercase(p.2), "modorganizer"@),
            None => false,
        },
        None => false,
    }
}

/// Running inside MO2: a module whose lower-cased name contains `usvfs` is
/// loaded, or the parent process is ModOrganizer.
pub open spec fn under_mo2(my_pid: u32, modules: Seq<Seq<char>>, ps: Seq<(u32, u32, Seq<char>)>) -> bool {
    (exists|i: int| 0 <= i < modules.len() && contains(lowercase(#[trigger] modules[i]), "usvfs"@)) || parent_is_mo2(
        my_pid,
        ps,
    )
}

pub struct SystemInfoService;

impl SystemInfoService {
    /// Whether the launcher runs inside MO2: a loaded module (`modules`, the
    /// names of this process's modules) is MO2's usvfs, or this process
    /// (`my_pid`) was started by ModOrganizer. `processes` lists the running
    /// processes as (pid, parent pid, executable name).
    pub fn is_running_under_mo2(my_pid: u32, modules: &[String], processes: &[(u32, u32, String)]) -> (r: bool)
        ensures
            r == under_mo2(my_pid, strs(modules@), process_views(processes@)),
    {
        let mut i: usize = 0;
        while i < modules.len()
            invariant
                i <= modules@.len(),
                forall|j: int| 0 <= j < i ==> !contains(lowercase(#[trigger] strs(modules@)[j]), "usvfs"@),
            decreases modules@.len() - i,
        {
            let c = chars_of(modules[i].as_str());
            let n = lower_chars(&c);
            assert(strs(modules@)[i as int] == modules@[i as int]@);
            if contains_str(&n, "usvfs") {
                return true;
            }
            i += 1;
        }
        Self::parent_is_mo2(my_pid, processes)
    }

    /// This process's parent, found by its pid, is ModOrganizer.
    fn parent_is_mo2(my_pid: u32, processes: &[(u32, u32, String)]) -> (r: bool)
        ensures
            r == parent_is_mo2(my_pid, process_views(processes@)),
    {
        let parent = match Self::first_with_pid(processes, my_pid) {
            Some(k) => processes[k].1,
            None => return false,
        };
        if parent == 0 {
            return false;
        }
        match Self::first_with_pid(processes, parent) {
            Some(k) => {
                let c = chars_of(processes[k].2.as_str());
                let n = lower_chars(&c);
                contains_str(&n, "modorganizer")
            },
            None => false,
        }
    }

    /// Position of the first process with pid `pid`.
    fn first_with_pid(processes: &[(u32, u32, String)], pid: u32) -> (r: Option<usize>)
        ensures
            match r {
                Some(k) => k < processes@.len() && first_entry(process_views(processes@), pid) == Some(
                    process_views(processes@)[k as int],
                ),
                None => first_entry(process_views(processes@), pid) is None,
            },
    {
        let ghost ps = process_views(processes@);
        let mut i: usize = 0;
        assert(ps.skip(0) =~= ps);
        while i < processes.len()
            invariant
                i <= processes@.len(),
                ps == process_views(processes@),
                first_entry(ps, pid) == first_entry(ps.skip(i as int), pid),
            decreases processes@.len() - i,
        {
            assert(ps.skip(i as int)[0] == ps[i as int]);
            assert(ps.skip(i as int).drop_first() =~= ps.skip(i + 1));
            if processes[i].0 == pid {
                return Some(i);
            }
            i += 1;
        }
        assert(ps.skip(i as int) =~= Seq::<(u32, u32, Seq<char>)>::empty());
        None
    }

    /// The running processes that block an install (the game, F4SE or MO2).
    pub fn check_blocking_processes(processes: &[BlockingProcess]) -> (r: Vec<BlockingProcess>)
        ensures
            proc_views(r@) == blockers_of(proc_views(processes@)),
    {
        let ghost ps = proc_views(processes@);
        let mut out: Vec<BlockingProcess> = Vec::new();
        let mut i: usize = 0;
        assert(ps.take(0) =~= Seq::<(Seq<char>, u32)>::empty());
        while i < processes.len()
            invariant
                i <= processes@.len(),
                ps == proc_views(processes@),
                proc_views(out@) == blockers_of(ps.take(i as int)),
            decreases processes@.len() - i,
        {
            let p = &processes[i];
            assert(ps.take(i + 1).drop_last() =~= ps.take(i as int));
            assert(ps.take(i + 1).last() == (p.name@, p.pid));
            let c = chars_of(p.name.as_str());
            let n = lower_chars(&c);
            let b = contains_str(&n, "fallout4.exe") || contains_str(&n, "f4se_loader.exe") || contains_str(
                &n,
                "modorganizer.exe",
            ) || contains_str(&n, "mo2.exe");
            let ghost before = proc_views(out@);
            if b {
                out.push(BlockingProcess { name: p.name.clone(), pid: p.pid });
                assert(proc_views(out@) =~= before + seq![(p.name@, p.pid)]);
            } else {
                assert(proc_views(out@) =~= before + Seq::<(Seq<char>, u32)>::empty());
            }
            i += 1;
        }
        assert(ps.take(ps.len() as int) =~= ps);
        out
    }

    /// Which key processes are running, by exact lower-cased executable name.
    pub fn process_status(processes: &[BlockingProcess]) -> (r: ProcessStatus)
        ensures
            r.fallout4_running == runs(proc_views(processes@), "fallout4.exe"@),
            r.mo2_running == (runs(proc_views(processes@), "modorganizer.exe"@) || runs(
                proc_views(processes@),
                "mo2.exe"@,
            )),
            r.f4se_running == runs(proc_views(processes@), "f4se_loader.exe"@),
    {
        ProcessStatus {
            fallout4_running: Self::any_named(processes, "fallout4.exe"),
            mo2_running: Self::any_named(processes, "modorganizer.exe") || Self::any_named(
                processes,
                "mo2.exe",
            ),
            f4se_running: Self::any_named(processes, "f4se_loader.exe"),
        }
    }

    fn any_named(processes: &[BlockingProcess], exe: &str) -> (b: bool)
        ensures
            b == runs(proc_views(processes@), exe@),
    {
        let ghost ps = proc_views(processes@);
        let mut i: usize = 0;
        while i < processes.len()
            invariant
                i <= processes@.len(),
                ps == proc_views(processes@),
                forall|j: int| 0 <= j < i ==> lowercase(#[trigger] ps[j].0) != exe@,
            decreases processes@.len() - i,
        {
            let c = chars_of(processes[i].name.as_str());
            let n = lower_chars(&c);
            assert(ps[i as int].0 == processes@[i as int].name@);
            if eq_str(&n, exe) {
                return true;
            }
            i += 1;
        }
        false
    }

    /// The pids of the running MO2 processes (those `kill_mo2` terminates).
    pub fn mo2_pids(processes: &[BlockingProcess]) -> (r: Vec<u32>)
        ensures
            r@ == mo2_pids_of(proc_views(processes@)),
    {
        let ghost ps = proc_views(processes@);
        let mut out: Vec<u32> = Vec::new();
        let mut i: usize = 0;
        assert(ps.take(0) =~= Seq::<(Seq<char>, u32)>::empty());
        while i < processes.len()
            invariant
                i <= processes@.len(),
                ps == proc_views(processes@),
                out@ == mo2_pids_of(ps.take(i as int)),
            decreases processes@.len() - i,
        {
            let p = &processes[i];
            assert(ps.take(i + 1).drop_last() =~= ps.take(i as int));
            assert(ps.take(i + 1).last() == (p.name@, p.pid));
            let c = chars_of(p.name.as_str());
            let n = lower_chars(&c);
            if eq_str(&n, "modorganizer.exe") || eq_str(&n, "mo2.exe") {
                out.push(p.pid);
                assert(out@ =~= mo2_pids_of(ps.take(i as int)) + seq![p.pid]);
            } else {
                assert(out@ =~= mo2_pids_of(ps.take(i as int)) + Seq::<u32>::empty());
            }
            i += 1;
        }
        assert(ps.take(ps.len() as int) =~= ps);
        out
    }

    /// Startup MO2 guard: launched through MO2, leave it alone and report it;
    /// otherwise MO2, if running, is to be closed, and that is reported.
    pub fn mo2_startup(under_mo2: bool, processes: &[BlockingProcess]) -> (r: Mo2StartupResult)
        ensures
            r.under_mo2 == under_mo2,
            r.killed_mo2 == (!under_mo2 && mo2_pids_of(proc_views(processes@)).len() > 0),
    {
        if under_mo2 {
            return Mo2StartupResult { killed_mo2: false, under_mo2: true };
        }
        let pids = Self::mo2_pids(processes);
        Mo2StartupResult { killed_mo2: pids.len() > 0, under_mo2: false }
    }

    /// The GPU vendor from the display adapters' descriptions, preferring a
    /// discrete NVIDIA card over an integrated AMD or Intel one.
    pub fn detect_gpu_vendor(adapter_descriptions: &[String]) -> (r: String)
        ensures
            r@ == vendor_of_adapters(crate::text::strs(adapter_descriptions@)),
    {
        let ghost ds = crate::text::strs(adapter_descriptions@);
        let mut found_amd = false;
        let mut found_intel = false;
        let mut i: usize = 0;
        while i < adapter_descriptions.len()
            invariant
                i <= adapter_descriptions@.len(),
                ds == crate::text::strs(adapter_descriptions@),
                forall|j: int| 0 <= j < i ==> !adapter_mentions(ds, j, "nvidia"@),
                found_amd <==> exists|j: int| 0 <= j < i && amd_adapter(ds, j),
                found_intel ==> exists|j: int| 0 <= j < i && adapter_mentions(ds, j, "intel"@),
                !found_amd && !found_intel ==> forall|j: int| 0 <= j < i ==> !adapter_mentions(ds, j, "intel"@),
            decreases adapter_descriptions@.len() - i,
        {
            let c = chars_of(adapter_descriptions[i].as_str());
            let d = lower_chars(&c);
            assert(ds[i as int] == adapter_descriptions@[i as int]@);
            let skip = contains_str(&d, "virtual") || contains_str(&d, "basic") || contains_str(&d, "remote")
                || contains_str(&d, "idd") || contains_str(&d, "parsec") || contains_str(&d, "citrix")
                || contains_str(&d, "rdp") || contains_str(&d, "meta");
            proof {
                assert(d@ == lowercase(ds[i as int]));
                if skip {
                    assert(skipped_adapter(lowercase(ds[i as int])));
                    assert(!amd_adapter(ds, i as int));
                    assert(!adapter_mentions(ds, i as int, "intel"@));
                    assert(!adapter_mentions(ds, i as int, "nvidia"@));
                }
            }
            if !skip {
                if contains_str(&d, "nvidia") {
                    assert(adapter_mentions(ds, i as int, "nvidia"@));
                    return "NVIDIA".to_owned();
                }
                if contains_str(&d, "amd") || contains_str(&d, "radeon") {
                    found_amd = true;
                    assert(amd_adapter(ds, i as int));
                } else if contains_str(&d, "intel") {
                    found_intel = true;
                    assert(adapter_mentions(ds, i as int, "intel"@));
                } else {
                    assert(!amd_adapter(ds, i as int));
                    assert(!adapter_mentions(ds, i as int, "intel"@));
                }
            }
            i += 1;
        }
        if found_amd {
            return "AMD".to_owned();
        }
        if found_intel {
            return "Intel".to_owned();
        }
        "Unknown".to_owned()
    }
}

} // verus!
