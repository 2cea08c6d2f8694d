//! The decisions of the monitor's loop: how the stack sampler is set up, what
//! to tell the user when the target cannot be watched, and how the loop ends
//! when a poll fails.

use crate::discovery::DiscoveryError;
use vstd::prelude::*;

verus! {

/// How the stack sampler is set up.
#[derive(Clone, Copy, Debug, PartialEq, Eq, Structural)]
pub struct SamplerSettings {
    /// Whether native frames are sampled too.
    pub native: bool,
    /// How much of each local variable is fetched; zero fetches none.
    pub dump_locals: u64,
    /// Whether file names are shown in full.
    pub full_filenames: bool,
}

/// The settings of the stack sampler. A stack is only sampled once the target
/// is known to misbehave, so the costly details are all asked for; local
/// variables are fetched where `print_locals` says so.
pub fn sampler_settings(print_locals: bool) -> (r: SamplerSettings)
    ensures
        r.native,
        r.full_filenames,
        r.dump_locals == if print_locals {
            10u64
        } else {
            0u64
        },
{
    SamplerSettings {
        native: true,
        dump_locals: if print_locals {
            10
        } else {
            0
        },
        full_filenames: true,
    }
}

/// The kind of system that the monitor runs on.
#[derive(Clone, Copy, Debug, PartialEq, Eq, Structural)]
pub enum Platform {
    /// Linux.
    Linux,
    /// macOS.
    MacOs,
    /// Any other system.
    Other,
}

/// What to tell the user when the target cannot be watched.
#[derive(Clone, Copy, Debug, PartialEq, Eq, Structural)]
pub enum Advice {
    /// The monitor must run as root.
    RunAsRoot,
    /// The monitor lacks the permission to trace: run it as root, or grant it
    /// the capability.
    AllowTracing,
    /// Nothing beyond the failure itself.
    Nothing,
}

/// What to tell the user when the target could not be attached to.
///
/// On macOS a monitor that is not root is told to run as root, whatever the
/// failure. On Linux a failure for want of permission gets the advice on
/// tracing. Every other failure is passed on as it is.
pub fn attach_advice(platform: Platform, is_root: bool, permission_denied: bool) -> (r: Advice)
    ensures
        r == match platform {
            Platform::MacOs => if !is_root {
                Advice::RunAsRoot
            } else {
                Advice::Nothing
            },
            Platform::Linux => if permission_denied {
                Advice::AllowTracing
            } else {
                Advice::Nothing
            },
            Platform::Other => Advice::Nothing,
        },
{
    match platform {
        Platform::MacOs => {
            if !is_root {
                Advice::RunAsRoot
            } else {
                Advice::Nothing
            }
        },
        Platform::Linux => {
            if permission_denied {
                Advice::AllowTracing
            } else {
                Advice::Nothing
            }
        },
        Platform::Other => Advice::Nothing,
    }
}

/// Whether a failed discovery is one for want of permission: no candidate
/// map could be read.
pub fn is_permission_failure(error: &DiscoveryError) -> (r: bool)
    ensures
        r == (*error == DiscoveryError::PermissionDenied),
{
    match error {
        DiscoveryError::PermissionDenied => true,
        _ => false,
    }
}

/// How the monitor's loop goes on or ends.
#[derive(Clone, Copy, Debug, PartialEq, Eq, Structural)]
pub enum LoopStep {
    /// Sleep for the poll interval and poll again.
    Continue,
    /// The target is gone: say so and end without an error.
    TargetExited,
    /// End with the poll's error.
    Fail,
}

/// What the loop does after a poll. A poll that succeeded is followed by the
/// next one. After one that failed, the target is probed: if it is gone, the
/// failure was its exit and the monitor ends cleanly; if it is still there,
/// the failure is the monitor's.
pub fn after_poll(poll_failed: bool, target_alive: bool) -> (r: LoopStep)
    ensures
        r == if !poll_failed {
            LoopStep::Continue
        } else if target_alive {
            LoopStep::Fail
        } else {
            LoopStep::TargetExited
        },
{
    if !poll_failed {
        LoopStep::Continue
    } else if target_alive {
        LoopStep::Fail
    } else {
        LoopStep::TargetExited
    }
}

/// The exit code of the monitor: zero where the target exited, nonzero where
/// the monitor failed.
pub fn exit_code(step: LoopStep) -> (r: i32)
    ensures
        r == 0 <==> step != LoopStep::Fail,
        step == LoopStep::Fail ==> r == 1,
{
    match step {
        LoopStep::Fail => 1,
        _ => 0,
    }
}

} // verus!
