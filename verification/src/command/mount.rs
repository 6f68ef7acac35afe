//! Mounting: the arguments, and the choice of provider.

use vstd::prelude::*;

use crate::command::{path_debug, path_debug_text, Platform};
use crate::provider::json::{json_options_outcome, JsonShhhProvider, ProviderError};

verus! {

/// Arguments of the mount command.
#[derive(Debug)]
pub struct MountArgs {
    /// Directory where the virtual file system should be mounted.
    pub path: std::path::PathBuf,
    /// Secrets provider to use.
    pub provider: String,
    /// Provider-specific options string.
    pub provider_opts: Option<String>,
}

/// The mount command.
#[derive(Debug)]
pub struct MountCmd {}

/// Builds the provider that the mount arguments ask for. The only provider
/// is `json`, which needs options.
pub fn provider_from_args(args: &MountArgs) -> (r: Result<JsonShhhProvider, ProviderError>)
    ensures
        args.provider@ != "json"@ ==> (r matches Err(ProviderError::UnknownProvider(name))
            && name@ == args.provider@),
        args.provider@ == "json"@ && args.provider_opts is None ==> (r matches Err(
            ProviderError::MissingOptions,
        )),
        args.provider@ == "json"@ ==> (args.provider_opts matches Some(options) ==> json_options_outcome(
            options@,
            r,
        )),
{
    if args.provider == String::from_str("json") {
        match &args.provider_opts {
            Some(options) => JsonShhhProvider::from_options(options.as_str()),
            None => Err(ProviderError::MissingOptions),
        }
    } else {
        Err(ProviderError::UnknownProvider(args.provider.clone()))
    }
}


/// An I/O error of the standard library, carried through opaquely.
#[verifier::external_type_specification]
#[verifier::external_body]
pub struct ExIoError(std::io::Error);

/// The advice given on macOS when mounting fails.
pub open spec fn macos_fuse_hint_text() -> Seq<char> {
    "macOS requires macFUSE. Install it with `brew install macfuse pkgconf`, then approve the system extension if macOS prompts for it."@
}

/// The advice given on macOS when mounting fails.
pub fn macos_fuse_hint() -> (r: &'static str)
    ensures
        r@ == macos_fuse_hint_text(),
        r@ == "macOS requires macFUSE. Install it with `brew install macfuse pkgconf`, then approve the system extension if macOS prompts for it."@,
{
    "macOS requires macFUSE. Install it with `brew install macfuse pkgconf`, then approve the system extension if macOS prompts for it."
}

/// The message that says where mounting failed.
pub open spec fn mount_failure_text(path: std::path::PathBuf) -> Seq<char> {
    "failed to mount virtual file system at "@ + path_debug_text(path)
}

/// The messages that a failure to mount at `path` is reported with,
/// outermost first: on macOS the advice on installing macFUSE, then where
/// mounting failed; the cause comes after them.
pub open spec fn mount_failure_contexts(path: std::path::PathBuf, platform: Platform) -> Seq<Seq<char>> {
    if platform == Platform::MacOs {
        seq![macos_fuse_hint_text(), mount_failure_text(path)]
    } else {
        seq![mount_failure_text(path)]
    }
}

/// Mounting failed: the cause, the directory, and the messages that the
/// failure is reported with, outermost first.
#[derive(Debug)]
pub struct MountFailure {
    pub cause: std::io::Error,
    pub path: std::path::PathBuf,
    pub contexts: Vec<String>,
}

/// Adds to a failure to mount at `path` what the user needs to know: where
/// mounting failed, and above that, on macOS, how to install macFUSE.
pub fn mount_error_context(err: std::io::Error, path: std::path::PathBuf, platform: Platform) -> (r: MountFailure)
    ensures
        r.cause == err,
        r.path == path,
        r.contexts@.map_values(|c: String| c@) == mount_failure_contexts(path, platform),
{
    let message = String::from_str("failed to mount virtual file system at ").concat(path_debug(&path).as_str());
    let mut contexts: Vec<String> = Vec::new();
    if platform == Platform::MacOs {
        contexts.push(String::from_str(macos_fuse_hint()));
    }
    contexts.push(message);
    proof {
        assert(contexts@.map_values(|c: String| c@) =~= mount_failure_contexts(path, platform));
    }
    MountFailure { cause: err, path, contexts }
}

/// An option of the mount.
#[derive(Debug, Clone, PartialEq, Eq)]
pub enum MountSetting {
    /// The file system is read-only.
    ReadOnly,
    /// The name of the file system's source.
    FsName(String),
}

/// The options that the file system is mounted with: read-only, and named
/// `shhhfs`.
pub fn mount_options() -> (r: Vec<MountSetting>)
    ensures
        r@.len() == 2,
        r@[0] == MountSetting::ReadOnly,
        r@[1] matches MountSetting::FsName(name) && name@ == "shhhfs"@,
{
    vec![MountSetting::ReadOnly, MountSetting::FsName(String::from_str("shhhfs"))]
}

/// Where the mount command stands.
#[derive(Debug, Clone, Copy, PartialEq, Eq, Structural)]
pub enum MountPhase {
    /// The provider is being built from the arguments.
    ChoosingProvider,
    /// The mount point directory is being created.
    Preparing,
    /// The file system is being mounted.
    Starting,
    /// Mounted; waiting for the session to end or for a shutdown signal.
    Serving,
    /// A shutdown signal came; the directory is being unmounted.
    Unmounting,
    /// Unmounted; waiting for the session to end.
    Draining,
    /// The command is over.
    Finished,
}

/// What happened while the mount was running.
#[derive(Debug, Clone, Copy, PartialEq, Eq, Structural)]
pub enum MountEvent {
    /// Building the provider ended, successfully or not.
    ProviderBuilt { ok: bool },
    /// Creating the mount point directory ended, successfully or not.
    DirectoryReady { ok: bool },
    /// Mounting the file system ended, successfully or not.
    MountStarted { ok: bool },
    /// The file system session ended, cleanly or not.
    SessionEnded { ok: bool },
    /// Waiting for a shutdown signal returned, with a signal or an error.
    ShutdownSignal { ok: bool },
    /// Unmounting the directory ended, successfully or not.
    UnmountDone { ok: bool },
}

/// What the mount command does next.
#[derive(Debug, Clone, Copy, PartialEq, Eq, Structural)]
pub enum MountAction {
    /// Create the mount point directory.
    CreateDirectory,
    /// Tell the user, and mount the file system.
    StartMount,
    /// Wait for the session to end or for a shutdown signal.
    AwaitSessionOrSignal,
    /// Tell the user, and unmount the directory.
    Unmount,
    /// Wait for the session to end.
    AwaitSession,
    /// End the command successfully.
    Succeed,
    /// End the command with the error that the event carried.
    Fail,
    /// The event does not belong to this phase: nothing to do.
    Ignore,
}

/// Whether `event` is one that the mount waits for in `phase`.
pub open spec fn awaited(phase: MountPhase, event: MountEvent) -> bool {
    match phase {
        MountPhase::ChoosingProvider => event is ProviderBuilt,
        MountPhase::Preparing => event is DirectoryReady,
        MountPhase::Starting => event is MountStarted,
        MountPhase::Serving => event is SessionEnded || event is ShutdownSignal,
        MountPhase::Unmounting => event is UnmountDone,
        MountPhase::Draining => event is SessionEnded,
        MountPhase::Finished => false,
    }
}

/// Whether the step that `event` reports went well.
pub open spec fn event_ok(event: MountEvent) -> bool {
    match event {
        MountEvent::ProviderBuilt { ok } => ok,
        MountEvent::DirectoryReady { ok } => ok,
        MountEvent::MountStarted { ok } => ok,
        MountEvent::SessionEnded { ok } => ok,
        MountEvent::ShutdownSignal { ok } => ok,
        MountEvent::UnmountDone { ok } => ok,
    }
}

/// Where a step that went well leads, and what comes next there.
pub open spec fn after_success(event: MountEvent) -> (MountPhase, MountAction) {
    match event {
        MountEvent::ProviderBuilt { .. } => (MountPhase::Preparing, MountAction::CreateDirectory),
        MountEvent::DirectoryReady { .. } => (MountPhase::Starting, MountAction::StartMount),
        MountEvent::MountStarted { .. } => (MountPhase::Serving, MountAction::AwaitSessionOrSignal),
        MountEvent::SessionEnded { .. } => (MountPhase::Finished, MountAction::Succeed),
        MountEvent::ShutdownSignal { .. } => (MountPhase::Unmounting, MountAction::Unmount),
        MountEvent::UnmountDone { .. } => (MountPhase::Draining, MountAction::AwaitSession),
    }
}

/// The next phase and action of a running mount after `event`: an event
/// that the phase does not wait for changes nothing; a step that failed
/// ends the command with its error; a step that went well leads on.
pub open spec fn mount_transition(phase: MountPhase, event: MountEvent) -> (MountPhase, MountAction) {
    if !awaited(phase, event) {
        (phase, MountAction::Ignore)
    } else if !event_ok(event) {
        (MountPhase::Finished, MountAction::Fail)
    } else {
        after_success(event)
    }
}

/// Decides the next phase and action of a running mount after `event`.
pub fn mount_step(phase: MountPhase, event: MountEvent) -> (r: (MountPhase, MountAction))
    ensures
        r == mount_transition(phase, event),
{
    match (phase, event) {
        (MountPhase::ChoosingProvider, MountEvent::ProviderBuilt { ok }) => if ok {
            (MountPhase::Preparing, MountAction::CreateDirectory)
        } else {
            (MountPhase::Finished, MountAction::Fail)
        },
        (MountPhase::Preparing, MountEvent::DirectoryReady { ok }) => if ok {
            (MountPhase::Starting, MountAction::StartMount)
        } else {
            (MountPhase::Finished, MountAction::Fail)
        },
        (MountPhase::Starting, MountEvent::MountStarted { ok }) => if ok {
            (MountPhase::Serving, MountAction::AwaitSessionOrSignal)
        } else {
            (MountPhase::Finished, MountAction::Fail)
        },
        (MountPhase::Serving, MountEvent::SessionEnded { ok }) => (
            MountPhase::Finished,
            if ok { MountAction::Succeed } else { MountAction::Fail },
        ),
        (MountPhase::Serving, MountEvent::ShutdownSignal { ok }) => if ok {
            (MountPhase::Unmounting, MountAction::Unmount)
        } else {
            (MountPhase::Finished, MountAction::Fail)
        },
        (MountPhase::Unmounting, MountEvent::UnmountDone { ok }) => if ok {
            (MountPhase::Draining, MountAction::AwaitSession)
        } else {
            (MountPhase::Finished, MountAction::Fail)
        },
        (MountPhase::Draining, MountEvent::SessionEnded { ok }) => (
            MountPhase::Finished,
            if ok { MountAction::Succeed } else { MountAction::Fail },
        ),
        _ => (phase, MountAction::Ignore),
    }
}

} // verus!
