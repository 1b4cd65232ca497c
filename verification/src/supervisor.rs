//! The supervisor's decision logic as a state machine.
//!
//! The supervisor brings up an embedded Tor, authenticates on its control
//! socket, takes ownership so Tor dies with the connection, registers one
//! onion service per export, serves the imports, and on interrupt drains
//! the registered onions, removes the working directory, and exits. All
//! I/O — spawning Tor, probing for the socket, sending commands, reading
//! replies, sleeping, and waiting for the signal — is the caller's: it
//! performs each returned action and feeds the outcome back in as the next
//! event.

use vstd::prelude::*;

verus! {

use crate::PipeError;
use crate::control::ConnError;

/// Where the supervisor stands.
#[derive(Debug, PartialEq, Eq, Structural, Clone, Copy)]
pub enum SupPhase {
    /// Nothing started yet.
    Init,
    /// Waiting for the control socket to appear; `attempt` counts the
    /// checks made so far.
    WaitSocket { attempt: u8 },
    /// The null-authentication command is outstanding.
    Authenticating,
    /// The take-ownership command is outstanding.
    TakingOwnership,
    /// The ADD_ONION for export `next` is outstanding.
    RegisteringExports { next: usize },
    /// Exports are registered and imports are being served; waiting for
    /// the interrupt.
    Running,
    /// Draining: the DEL_ONION for export `next` is outstanding.
    Draining { next: usize },
    /// The working directory is being removed.
    RemovingData,
    /// Shut down cleanly.
    Done,
    /// Stopped with an error.
    Failed,
}

/// What the caller reports to the supervisor.
#[derive(Debug, PartialEq, Eq)]
pub enum SupEvent {
    /// The embedded Tor was spawned on its thread.
    TorStarted,
    /// The control-socket probe finished.
    SocketCheck { exists: bool },
    /// A reply to the outstanding command arrived with this status code.
    Reply { code: u16 },
    /// Reading or writing the control connection failed.
    IoFailed { message: String },
    /// A reply arrived but violated the control protocol's framing; the
    /// payload is the decoder's error, already mapped to its connection
    /// error.
    BadReply { error: ConnError },
    /// The interrupt signal arrived.
    Interrupted,
    /// A DEL_ONION could not be completed; a connection reset here is
    /// expected, as Tor may already be gone.
    DelFailed { connection_reset: bool },
    /// The working directory was removed.
    DataRemoved,
}

/// What the caller must do next.
#[derive(Debug, PartialEq, Eq)]
pub enum SupAction {
    /// Probe for the control socket file.
    CheckSocket,
    /// Sleep this many seconds, then probe again.
    SleepAndCheck { seconds: u8 },
    /// Send the null-authentication command.
    SendAuthenticate,
    /// Send the take-ownership command.
    SendTakeOwnership,
    /// Print the export's banner and send its ADD_ONION command.
    AnnounceAndAddOnion { index: usize },
    /// Print the import banners, spawn the import accept loops, and wait
    /// for the interrupt.
    ServeImportsAndWait,
    /// Send the DEL_ONION command for this export's onion.
    SendDelOnion { index: usize },
    /// Remove the working directory.
    RemoveDataDir,
    /// Shut down cleanly.
    Exit,
    /// Stop with this error.
    Fail(PipeError),
    /// Stop: an event arrived that the current phase cannot accept.
    FailUnexpected,
}

/// The most socket probes made before giving up.
pub const MAX_SOCKET_ATTEMPTS: u8 = 10;

/// One supervisor step: what phase follows the event, and what to do.
pub open spec fn spec_sup_step(n_exports: int, phase: SupPhase, event: SupEvent) -> (
    SupPhase,
    SupAction,
) {
    match (phase, event) {
        (SupPhase::Init, SupEvent::TorStarted) => (
            SupPhase::WaitSocket { attempt: 0 },
            SupAction::CheckSocket,
        ),
        (SupPhase::WaitSocket { attempt }, SupEvent::SocketCheck { exists }) => {
            if exists {
                (SupPhase::Authenticating, SupAction::SendAuthenticate)
            } else if attempt < 9 {
                (
                    SupPhase::WaitSocket { attempt: (attempt + 1) as u8 },
                    SupAction::SleepAndCheck { seconds: attempt },
                )
            } else {
                (SupPhase::Failed, SupAction::Fail(PipeError::ConnTimeout))
            }
        },
        (SupPhase::Authenticating, SupEvent::Reply { code }) => {
            if code == 250 {
                (SupPhase::TakingOwnership, SupAction::SendTakeOwnership)
            } else {
                (SupPhase::Failed, SupAction::Fail(PipeError::Conn(ConnError::InvalidResponseCode(code))))
            }
        },
        (SupPhase::TakingOwnership, SupEvent::Reply { code }) => {
            if code != 250 {
                (SupPhase::Failed, SupAction::Fail(PipeError::Conn(ConnError::InvalidResponseCode(code))))
            } else if n_exports > 0 {
                (
                    SupPhase::RegisteringExports { next: 0 },
                    SupAction::AnnounceAndAddOnion { index: 0 },
                )
            } else {
                (SupPhase::Running, SupAction::ServeImportsAndWait)
            }
        },
        (SupPhase::RegisteringExports { next }, SupEvent::Reply { code }) => {
            if code != 250 {
                (SupPhase::Failed, SupAction::Fail(PipeError::Conn(ConnError::InvalidResponseCode(code))))
            } else if next + 1 < n_exports {
                (
                    SupPhase::RegisteringExports { next: (next + 1) as usize },
                    SupAction::AnnounceAndAddOnion { index: (next + 1) as usize },
                )
            } else {
                (SupPhase::Running, SupAction::ServeImportsAndWait)
            }
        },
        (SupPhase::Running, SupEvent::Interrupted) => {
            if n_exports > 0 {
                (SupPhase::Draining { next: 0 }, SupAction::SendDelOnion { index: 0 })
            } else {
                (SupPhase::RemovingData, SupAction::RemoveDataDir)
            }
        },
        (SupPhase::Draining { next }, SupEvent::Reply { code: _ }) => {
            if next + 1 < n_exports {
                (
                    SupPhase::Draining { next: (next + 1) as usize },
                    SupAction::SendDelOnion { index: (next + 1) as usize },
                )
            } else {
                (SupPhase::RemovingData, SupAction::RemoveDataDir)
            }
        },
        (SupPhase::Draining { next }, SupEvent::DelFailed { connection_reset }) => {
            if connection_reset {
                (SupPhase::RemovingData, SupAction::RemoveDataDir)
            } else if next + 1 < n_exports {
                (
                    SupPhase::Draining { next: (next + 1) as usize },
                    SupAction::SendDelOnion { index: (next + 1) as usize },
                )
            } else {
                (SupPhase::RemovingData, SupAction::RemoveDataDir)
            }
        },
        (SupPhase::Draining { next }, SupEvent::BadReply { error: _ }) => {
            if next + 1 < n_exports {
                (
                    SupPhase::Draining { next: (next + 1) as usize },
                    SupAction::SendDelOnion { index: (next + 1) as usize },
                )
            } else {
                (SupPhase::RemovingData, SupAction::RemoveDataDir)
            }
        },
        (SupPhase::RemovingData, SupEvent::DataRemoved) => (SupPhase::Done, SupAction::Exit),
        (_, SupEvent::IoFailed { message }) => (
            SupPhase::Failed,
            SupAction::Fail(PipeError::IO(message)),
        ),
        (_, SupEvent::BadReply { error }) => (
            SupPhase::Failed,
            SupAction::Fail(PipeError::Conn(error)),
        ),
        (_, _) => (SupPhase::Failed, SupAction::FailUnexpected),
    }
}

/// A phase that fits a pipe with `n_exports` exports: indices stay in
/// range and the probe count stays within its bound.
pub open spec fn phase_wf(n_exports: int, phase: SupPhase) -> bool {
    match phase {
        SupPhase::WaitSocket { attempt } => attempt < MAX_SOCKET_ATTEMPTS,
        SupPhase::RegisteringExports { next } => 0 <= next < n_exports,
        SupPhase::Draining { next } => 0 <= next < n_exports,
        _ => true,
    }
}

/// Performs one supervisor step.
pub fn sup_step(n_exports: usize, phase: SupPhase, event: SupEvent) -> (r: (SupPhase, SupAction))
    ensures
        r == spec_sup_step(n_exports as int, phase, event),
{
    match (phase, event) {
        (SupPhase::Init, SupEvent::TorStarted) => (
            SupPhase::WaitSocket { attempt: 0 },
            SupAction::CheckSocket,
        ),
        (SupPhase::WaitSocket { attempt }, SupEvent::SocketCheck { exists }) => {
            if exists {
                (SupPhase::Authenticating, SupAction::SendAuthenticate)
            } else if attempt < 9 {
                (
                    SupPhase::WaitSocket { attempt: attempt + 1 },
                    SupAction::SleepAndCheck { seconds: attempt },
                )
            } else {
                (SupPhase::Failed, SupAction::Fail(PipeError::ConnTimeout))
            }
        },
        (SupPhase::Authenticating, SupEvent::Reply { code }) => {
            if code == 250 {
                (SupPhase::TakingOwnership, SupAction::SendTakeOwnership)
            } else {
                (
                    SupPhase::Failed,
                    SupAction::Fail(PipeError::Conn(ConnError::InvalidResponseCode(code))),
                )
            }
        },
        (SupPhase::TakingOwnership, SupEvent::Reply { code }) => {
            if code != 250 {
                (
                    SupPhase::Failed,
                    SupAction::Fail(PipeError::Conn(ConnError::InvalidResponseCode(code))),
                )
            } else if n_exports > 0 {
                (
                    SupPhase::RegisteringExports { next: 0 },
                    SupAction::AnnounceAndAddOnion { index: 0 },
                )
            } else {
                (SupPhase::Running, SupAction::ServeImportsAndWait)
            }
        },
        (SupPhase::RegisteringExports { next }, SupEvent::Reply { code }) => {
            if code != 250 {
                (
                    SupPhase::Failed,
                    SupAction::Fail(PipeError::Conn(ConnError::InvalidResponseCode(code))),
                )
            } else if next < usize::MAX && next + 1 < n_exports {
                (
                    SupPhase::RegisteringExports { next: next + 1 },
                    SupAction::AnnounceAndAddOnion { index: next + 1 },
                )
            } else {
                proof {
                    assert(!(next + 1 < n_exports as int));
                }
                (SupPhase::Running, SupAction::ServeImportsAndWait)
            }
        },
        (SupPhase::Running, SupEvent::Interrupted) => {
            if n_exports > 0 {
                (SupPhase::Draining { next: 0 }, SupAction::SendDelOnion { index: 0 })
            } else {
                (SupPhase::RemovingData, SupAction::RemoveDataDir)
            }
        },
        (SupPhase::Draining { next }, SupEvent::Reply { code: _ }) => {
            if next < usize::MAX && next + 1 < n_exports {
                (
                    SupPhase::Draining { next: next + 1 },
                    SupAction::SendDelOnion { index: next + 1 },
                )
            } else {
                (SupPhase::RemovingData, SupAction::RemoveDataDir)
            }
        },
        (SupPhase::Draining { next }, SupEvent::DelFailed { connection_reset }) => {
            if connection_reset {
                (SupPhase::RemovingData, SupAction::RemoveDataDir)
            } else if next < usize::MAX && next + 1 < n_exports {
                (
                    SupPhase::Draining { next: next + 1 },
                    SupAction::SendDelOnion { index: next + 1 },
                )
            } else {
                (SupPhase::RemovingData, SupAction::RemoveDataDir)
            }
        },
        (SupPhase::Draining { next }, SupEvent::BadReply { error: _ }) => {
            if next < usize::MAX && next + 1 < n_exports {
                (
                    SupPhase::Draining { next: next + 1 },
                    SupAction::SendDelOnion { index: next + 1 },
                )
            } else {
                (SupPhase::RemovingData, SupAction::RemoveDataDir)
            }
        },
        (SupPhase::RemovingData, SupEvent::DataRemoved) => (SupPhase::Done, SupAction::Exit),
        (_, SupEvent::IoFailed { message }) => (
            SupPhase::Failed,
            SupAction::Fail(PipeError::IO(message)),
        ),
        (_, SupEvent::BadReply { error }) => (
            SupPhase::Failed,
            SupAction::Fail(PipeError::Conn(error)),
        ),
        (_, _) => (SupPhase::Failed, SupAction::FailUnexpected),
    }
}

/// A step from a well-formed phase lands in a well-formed phase: export
/// indices never run past the exports, and the probe count stays bounded.
pub proof fn lemma_step_preserves_wf(n_exports: int, phase: SupPhase, event: SupEvent)
    requires
        phase_wf(n_exports, phase),
        n_exports >= 0,
    ensures
        phase_wf(n_exports, spec_sup_step(n_exports, phase, event).0),
{
}

/// Exports are registered in configuration order: the ADD_ONION for an
/// export is issued only as the reply for the one before it succeeds, and
/// registration only ever moves forward, one export at a time.
pub proof fn lemma_exports_register_in_order(n_exports: usize, next: usize, code: u16)
    requires
        next < n_exports,
        code == 250,
    ensures
        ({
            let (p2, a) = spec_sup_step(
                n_exports as int,
                SupPhase::RegisteringExports { next },
                SupEvent::Reply { code },
            );
            if next + 1 < n_exports {
                p2 == SupPhase::RegisteringExports { next: (next + 1) as usize } && a
                    == SupAction::AnnounceAndAddOnion { index: (next + 1) as usize }
            } else {
                p2 == SupPhase::Running && a == SupAction::ServeImportsAndWait
            }
        }),
{
}

/// An error reply to any outstanding command before running is fatal and
/// surfaces the server's status code; in particular, the error Tor returns
/// for an ADD_ONION without ports stops the supervisor with that error.
pub proof fn lemma_error_reply_fatal(n_exports: int, phase: SupPhase, code: u16)
    requires
        code != 250,
        phase is Authenticating || phase is TakingOwnership || phase is RegisteringExports,
    ensures
        spec_sup_step(n_exports, phase, SupEvent::Reply { code }) == (
            SupPhase::Failed,
            SupAction::Fail(PipeError::Conn(ConnError::InvalidResponseCode(code))),
        ),
{
}

/// Onions are torn down in the order they were registered, and a
/// connection reset during teardown ends the drain without an error: the
/// shutdown proceeds to removing the working directory.
pub proof fn lemma_drain_order_and_reset(n_exports: usize, next: usize, reset: bool)
    requires
        next < n_exports,
    ensures
        ({
            let (p2, a) = spec_sup_step(
                n_exports as int,
                SupPhase::Draining { next },
                SupEvent::DelFailed { connection_reset: reset },
            );
            if reset {
                p2 == SupPhase::RemovingData && a == SupAction::RemoveDataDir
            } else if next + 1 < n_exports {
                p2 == SupPhase::Draining { next: (next + 1) as usize } && a
                    == SupAction::SendDelOnion { index: (next + 1) as usize }
            } else {
                p2 == SupPhase::RemovingData && a == SupAction::RemoveDataDir
            }
        }),
{
}

/// A reply that violates the framing is fatal outside the drain, and the
/// error it surfaces is the control-protocol one the decoder assigned;
/// during the drain it is treated like any other failed delete, and the
/// teardown continues.
pub proof fn lemma_framing_error_surfaces(n_exports: int, phase: SupPhase, error: ConnError)
    requires
        !(phase is Draining),
    ensures
        spec_sup_step(n_exports, phase, SupEvent::BadReply { error }) == (
            SupPhase::Failed,
            SupAction::Fail(PipeError::Conn(error)),
        ),
{
}

/// The socket wait is bounded: every sleep lasts at most nine seconds, the
/// sleep at each attempt grows by one second, and the tenth failed probe
/// gives up with a timeout.
pub proof fn lemma_backoff_bounded(n_exports: int, attempt: u8)
    requires
        attempt < MAX_SOCKET_ATTEMPTS,
    ensures
        ({
            let (p2, a) = spec_sup_step(
                n_exports,
                SupPhase::WaitSocket { attempt },
                SupEvent::SocketCheck { exists: false },
            );
            if attempt < 9 {
                p2 == SupPhase::WaitSocket { attempt: (attempt + 1) as u8 } && a
                    == SupAction::SleepAndCheck { seconds: attempt } && attempt <= 9
            } else {
                p2 == SupPhase::Failed && a == SupAction::Fail(PipeError::ConnTimeout)
            }
        }),
{
}

} // verus!
