use fallen_world_launcher::services::system_info::{BlockingProcess, SystemInfoService};
use fallen_world_launcher::services::system_tasks::SystemTasks;

fn p(name: &str, pid: u32) -> BlockingProcess {
    BlockingProcess { name: name.to_string(), pid }
}

#[test]
fn blockers_match_by_substring_ignoring_case() {
    let ps = vec![p("explorer.exe", 1), p("Fallout4.exe", 2), p("MO2.exe", 3), p("Spriggit.Json.Fallout4.exe", 4)];
    let b = SystemInfoService::check_blocking_processes(&ps);
    let pids: Vec<u32> = b.iter().map(|x| x.pid).collect();
    assert_eq!(pids, vec![2, 3, 4]);
    assert!(SystemInfoService::check_blocking_processes(&[]).is_empty());
}

#[test]
fn status_uses_exact_names() {
    let ps = vec![p("Spriggit.Json.Fallout4.exe", 4), p("ModOrganizer.exe", 5)];
    let s = SystemInfoService::process_status(&ps);
    assert!(!s.fallout4_running);
    assert!(s.mo2_running);
    assert!(!s.f4se_running);
    let s2 = SystemInfoService::process_status(&[p("f4se_loader.exe", 1), p("FALLOUT4.EXE", 2)]);
    assert!(s2.fallout4_running && s2.f4se_running && !s2.mo2_running);
}

#[test]
fn mo2_guard() {
    let ps = vec![p("mo2.exe", 7), p("other", 8), p("ModOrganizer.exe", 9)];
    assert_eq!(SystemInfoService::mo2_pids(&ps), vec![7, 9]);
    let r = SystemInfoService::mo2_startup(false, &ps);
    assert!(r.killed_mo2 && !r.under_mo2);
    let r = SystemInfoService::mo2_startup(true, &ps);
    assert!(!r.killed_mo2 && r.under_mo2);
    let r = SystemInfoService::mo2_startup(false, &[]);
    assert!(!r.killed_mo2 && !r.under_mo2);
}

#[test]
fn gpu_vendor_prefers_nvidia() {
    let d = |v: &[&str]| v.iter().map(|s| s.to_string()).collect::<Vec<String>>();
    assert_eq!(SystemInfoService::detect_gpu_vendor(&d(&["AMD Radeon(TM) Graphics", "NVIDIA GeForce RTX 4070"])), "NVIDIA");
    assert_eq!(SystemInfoService::detect_gpu_vendor(&d(&["Intel(R) UHD", "Radeon RX 6800"])), "AMD");
    assert_eq!(SystemInfoService::detect_gpu_vendor(&d(&["Intel(R) UHD Graphics"])), "Intel");
    assert_eq!(SystemInfoService::detect_gpu_vendor(&d(&["Microsoft Basic Display Adapter NVIDIA"])), "Unknown");
    assert_eq!(SystemInfoService::detect_gpu_vendor(&[]), "Unknown");
}

#[test]
fn pagefile_recommendation_is_one_and_a_half_ram() {
    let info = SystemTasks::pagefile_info("D:", 16384, vec!["C:".to_string()]);
    assert_eq!(info.recommended_mb, 24576);
    assert_eq!(info.ram_mb, 16384);
    assert_eq!(SystemTasks::pagefile_info("C:", 3, vec![]).recommended_mb, 4);
    assert_eq!(info.install_drive, "D:");
    assert!(SystemTasks::configure_pagefile("C:", 1).is_err());
    assert_eq!(
        SystemTasks::add_defender_exclusion("/x").unwrap_err(),
        "Windows Defender exclusions are Windows-only."
    );
}

#[test]
fn running_under_mo2_is_seen_from_usvfs_or_the_parent() {
    let s = |v: &[&str]| v.iter().map(|x| x.to_string()).collect::<Vec<String>>();
    let procs = vec![
        (10u32, 4u32, "Launcher.exe".to_string()),
        (4u32, 1u32, "ModOrganizer.exe".to_string()),
        (20u32, 7u32, "Launcher.exe".to_string()),
        (7u32, 1u32, "explorer.exe".to_string()),
        (30u32, 0u32, "Launcher.exe".to_string()),
    ];
    assert!(SystemInfoService::is_running_under_mo2(10, &s(&["ntdll.dll"]), &procs));
    assert!(!SystemInfoService::is_running_under_mo2(20, &s(&["ntdll.dll"]), &procs));
    assert!(SystemInfoService::is_running_under_mo2(20, &s(&["USVFS_x64.dll"]), &procs));
    assert!(!SystemInfoService::is_running_under_mo2(30, &[], &procs));
    assert!(!SystemInfoService::is_running_under_mo2(99, &[], &procs));
    assert!(!SystemInfoService::is_running_under_mo2(10, &[], &[]));
}
