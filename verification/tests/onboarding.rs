use fallen_world_launcher::services::onboarding::{OnboardingConfig, OnboardingService};

#[test]
fn default_is_incomplete() {
    let cfg = OnboardingConfig::default();
    assert!(!cfg.complete);
    assert!(cfg.resolution.is_none());
    assert!(cfg.gpu_vendor.is_none());
}

#[test]
fn completion_follows_saved_config() {
    assert!(!OnboardingService::is_complete(None));
    let mut cfg = OnboardingConfig::default();
    assert!(!OnboardingService::is_complete(Some(&cfg)));
    cfg.complete = true;
    assert!(OnboardingService::is_complete(Some(&cfg)));
}
