use jcm::cli::ElevateMode;
use jcm::elevation::{after_first_sudo, ensure_can_mutate, is_elevated, require_sudo, ElevationPlan, SudoStep};
use jcm::error::JcmError;

#[test]
fn elevation_plans() {
    assert_eq!(ensure_can_mutate("/c", true, false, ElevateMode::Never).unwrap(), ElevationPlan::Direct);
    assert!(matches!(ensure_can_mutate("/c", false, true, ElevateMode::Never), Err(JcmError::CacertsNotWritable { .. })));
    assert_eq!(ensure_can_mutate("/c", false, false, ElevateMode::Auto).unwrap(), ElevationPlan::NeedElevation);
    assert_eq!(ensure_can_mutate("/c", false, true, ElevateMode::Always).unwrap(), ElevationPlan::Direct);
    assert_eq!(ensure_can_mutate("/c", false, false, ElevateMode::Always).unwrap(), ElevationPlan::NeedElevation);
}

#[test]
fn elevation_detection_and_sudo() {
    assert!(is_elevated(Some("1"), false));
    assert!(!is_elevated(Some("yes"), false));
    assert!(is_elevated(None, true));
    assert_eq!(after_first_sudo(true, false).unwrap(), SudoStep::UseFirst);
    assert_eq!(after_first_sudo(false, true).unwrap(), SudoStep::AskPassword);
    assert!(matches!(after_first_sudo(false, false), Err(JcmError::NonInteractiveElevation)));
    assert!(matches!(require_sudo(false), Err(JcmError::SudoNotFound)));
}
