//! Windows system tasks the launcher performs on the user's behalf: the
//! pagefile (virtual memory) step and an antivirus exclusion.
use vstd::prelude::*;

verus! {

/// What the pagefile page of the setup shows.
#[derive(Debug, Clone)]
pub struct PagefileInfo {
    pub ram_mb: u64,
    pub recommended_mb: u64,
    pub drives: Vec<String>,
    pub install_drive: String,
}

/// Total RAM assumed where the system cannot be asked.
pub const DEFAULT_RAM_MB: u64 = 16384;

pub struct SystemTasks;

impl SystemTasks {
    /// Info for the pagefile UI: total RAM, recommended size (1.5 x RAM,
    /// rounded down), the fixed drives and the drive the modlist lives on.
    /// `ram_mb` below 2^51 keeps 1.5 x RAM exact in `f64`, as the
    /// recommended size has always been computed.
    pub fn pagefile_info(install_drive: &str, ram_mb: u64, drives: Vec<String>) -> (r: PagefileInfo)
        requires
            ram_mb < 0x8_0000_0000_0000,
        ensures
            r.ram_mb == ram_mb,
            r.recommended_mb == ram_mb + ram_mb / 2,
            r.drives@ == drives@,
            r.install_drive@ == install_drive@,
    {
        PagefileInfo {
            ram_mb,
            recommended_mb: ram_mb + ram_mb / 2,
            drives,
            install_drive: install_drive.to_owned(),
        }
    }

    /// Configure the pagefile; on this platform swap is managed by the OS.
    pub fn configure_pagefile(drive: &str, target_mb: u64) -> (r: Result<(), String>)
        ensures
            r matches Err(e) && e@ == "Pagefile configuration is Windows-only; Linux manages swap separately."@,
    {
        Err("Pagefile configuration is Windows-only; Linux manages swap separately.".to_owned())
    }

    /// Add a Windows Defender exclusion; there is none on this platform.
    pub fn add_defender_exclusion(path: &str) -> (r: Result<String, String>)
        ensures
            r matches Err(e) && e@ == "Windows Defender exclusions are Windows-only."@,
    {
        Err("Windows Defender exclusions are Windows-only.".to_owned())
    }
}

} // verus!
