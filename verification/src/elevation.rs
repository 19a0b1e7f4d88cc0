//! Whether writing cacerts needs elevated privileges, and what to do when a
//! non-interactive elevated run fails.
use vstd::prelude::*;
use crate::cli::ElevateMode;
use crate::error::JcmError;
use crate::text::{chars_of, eq_chars};

verus! {

/// The variable that marks a process started with elevated privileges.
pub const ELEVATED_ENV: &'static str = "JCM_ELEVATED";

/// How a keystore change is run.
#[derive(Clone, Copy, Debug, PartialEq, Eq, Structural)]
pub enum ElevationPlan {
    Direct,
    NeedElevation,
}

/// The process is elevated when `JCM_ELEVATED` is `1` or it runs as root/administrator.
pub fn is_elevated(elevated_env: Option<&str>, is_root: bool) -> (b: bool)
    ensures
        b == ((elevated_env matches Some(v) && v@ == "1"@) || is_root),
{
    let flag = match elevated_env {
        Some(v) => eq_chars(&chars_of(v), &chars_of("1")),
        None => false,
    };
    flag || is_root
}

/// The plan for changing cacerts: direct when it is writable or the process is
/// elevated; elevation is refused under `Never`.
pub open spec fn mutation_plan(writable: bool, elevated: bool, mode: ElevateMode) -> Option<ElevationPlan> {
    if mode == ElevateMode::Never && !writable {
        None
    } else if writable || elevated {
        Some(ElevationPlan::Direct)
    } else {
        Some(ElevationPlan::NeedElevation)
    }
}

pub fn ensure_can_mutate(cacerts: &str, writable: bool, elevated: bool, mode: ElevateMode) -> (r: Result<ElevationPlan, JcmError>)
    ensures
        match mutation_plan(writable, elevated, mode) {
            Some(p) => r == Ok::<ElevationPlan, JcmError>(p),
            None => r matches Err(e) && (e matches JcmError::CacertsNotWritable { path } && path@ == cacerts@),
        },
{
    match mode {
        ElevateMode::Never => {
            if !writable {
                return Err(JcmError::CacertsNotWritable { path: cacerts.to_owned() });
            }
        },
        ElevateMode::Always => {
            if !writable && !elevated {
                return Ok(ElevationPlan::NeedElevation);
            }
        },
        ElevateMode::Auto => {
            if !writable && !elevated {
                return Ok(ElevationPlan::NeedElevation);
            }
        },
    }
    if writable || elevated {
        Ok(ElevationPlan::Direct)
    } else {
        Ok(ElevationPlan::NeedElevation)
    }
}

/// What follows a `sudo` run without a password prompt.
#[derive(Clone, Copy, Debug, PartialEq, Eq, Structural)]
pub enum SudoStep {
    /// Its result stands.
    UseFirst,
    /// Run again, letting sudo ask for the password on the terminal.
    AskPassword,
}

/// After the first `sudo` run: keep it if it succeeded, else ask for a
/// password when a terminal can, else fail.
pub fn after_first_sudo(first_succeeded: bool, interactive: bool) -> (r: Result<SudoStep, JcmError>)
    ensures
        first_succeeded ==> r == Ok::<SudoStep, JcmError>(SudoStep::UseFirst),
        !first_succeeded && interactive ==> r == Ok::<SudoStep, JcmError>(SudoStep::AskPassword),
        !first_succeeded && !interactive ==> r matches Err(JcmError::NonInteractiveElevation),
{
    if first_succeeded {
        Ok(SudoStep::UseFirst)
    } else if !interactive {
        Err(JcmError::NonInteractiveElevation)
    } else {
        Ok(SudoStep::AskPassword)
    }
}

/// Elevation with `sudo` needs `sudo` on the path.
pub fn require_sudo(sudo_available: bool) -> (r: Result<(), JcmError>)
    ensures
        r is Ok <==> sudo_available,
        !sudo_available ==> r matches Err(JcmError::SudoNotFound),
{
    if sudo_available {
        Ok(())
    } else {
        Err(JcmError::SudoNotFound)
    }
}

/// A writable cacerts never needs elevation, whatever the mode.
pub proof fn law_writable_is_direct(elevated: bool, mode: ElevateMode)
    ensures
        mutation_plan(true, elevated, mode) == Some(ElevationPlan::Direct),
{
}

/// Only `Never` refuses, and only a cacerts that cannot be written.
pub proof fn law_refusal_only_under_never(writable: bool, elevated: bool, mode: ElevateMode)
    ensures
        mutation_plan(writable, elevated, mode) is None <==> (mode == ElevateMode::Never && !writable),
{
}

} // verus!
