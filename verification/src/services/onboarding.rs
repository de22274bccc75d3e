//! First-time setup state of the launcher.
use vstd::prelude::*;

verus! {

/// Persisted first-time setup result.
#[derive(Debug, Clone)]
pub struct OnboardingConfig {
    /// Resolution the user confirmed: (width, height).
    pub resolution: Option<(u32, u32)>,
    /// GPU vendor the user confirmed: "NVIDIA" | "AMD" | "Intel".
    pub gpu_vendor: Option<String>,
    /// Upscaler the user chose: "DLAA" | "DLSS" | "FSR".
    pub upscaler: Option<String>,
    /// Per-item acknowledgements for the System Prerequisites checklist.
    pub prereqs_acked: Vec<bool>,
    /// User confirmed they reviewed pagefile configuration.
    pub pagefile_acked: bool,
    /// Setup completed end-to-end at least once.
    pub complete: bool,
}

/// The fresh state: nothing chosen, nothing acknowledged, not complete.
pub open spec fn is_fresh(c: OnboardingConfig) -> bool {
    &&& c.resolution is None
    &&& c.gpu_vendor is None
    &&& c.upscaler is None
    &&& c.prereqs_acked@.len() == 0
    &&& !c.pagefile_acked
    &&& !c.complete
}

impl Default for OnboardingConfig {
    fn default() -> (r: Self)
        ensures
            is_fresh(r),
    {
        OnboardingConfig {
            resolution: None,
            gpu_vendor: None,
            upscaler: None,
            prereqs_acked: Vec::new(),
            pagefile_acked: false,
            complete: false,
        }
    }
}

pub struct OnboardingService;

impl OnboardingService {
    /// Has the user finished first-time setup at least once? `saved` is the
    /// stored configuration, `None` when there is none or it cannot be read,
    /// which counts as the fresh state.
    pub fn is_complete(saved: Option<&OnboardingConfig>) -> (b: bool)
        ensures
            b == match saved {
                Some(c) => c.complete,
                None => false,
            },
    {
        match saved {
            Some(c) => c.complete,
            None => {
                let fresh = OnboardingConfig::default();
                fresh.complete
            },
        }
    }
}

} // verus!
