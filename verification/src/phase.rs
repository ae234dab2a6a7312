//! Where a self-update stands, and how it moves on: a newer release found by a
//! check, a click on the titlebar pill, the end of an install, a failed restart, and
//! the wait for an export or an upload that a restart would cut short.
use vstd::prelude::*;

use crate::update::{Release, UpdateError};

verus! {

/// The state of the self-update, shown by the titlebar pill. `P` is how the installed
/// executable is named (a path).
#[derive(Clone, Debug, PartialEq, Eq)]
pub enum Phase<P> {
    /// Nothing to offer.
    Idle,
    /// A newer release can be installed.
    Available(Release),
    /// The release is being downloaded and unpacked.
    Installing(Release),
    /// The new executable is being started.
    Restarting,
    /// The new files are in place, but an export or an upload is still running: the
    /// restart waits for it (or for a click) rather than cutting it off.
    ReadyToRestart { release: Release, exe: P },
    /// The install of `release` failed.
    Failed { release: Release, error: UpdateError },
}

impl<P> Phase<P> {
    /// While installing or restarting the pill takes no clicks.
    pub open spec fn spec_busy(&self) -> bool {
        self is Installing || self is Restarting
    }

    /// Whether an install or a restart is under way.
    pub fn busy(&self) -> (b: bool)
        ensures
            b == self.spec_busy(),
    {
        match self {
            Phase::Installing(_) | Phase::Restarting => true,
            _ => false,
        }
    }
}

/// What happens to the self-update.
#[derive(Debug)]
pub enum UpdateEvent<P> {
    /// A check found this release newer than the running copy.
    Found(Release),
    /// The pill was clicked; `working`: an export or an upload is running.
    Clicked { working: bool },
    /// The install of `release` ended, with the installed executable or an error.
    Installed { release: Release, outcome: Result<P, UpdateError>, working: bool },
    /// Starting the installed executable of `release` failed.
    RelaunchFailed { release: Release, error: UpdateError },
    /// A look, while an installed update waits, whether the work it waits for is over.
    IdleCheck { working: bool },
    /// The pill of a failed update was dismissed.
    Dismissed,
}

/// What the titlebar does after an event.
#[derive(Debug, PartialEq, Eq)]
pub enum UpdateAction<P> {
    /// Nothing.
    Nothing,
    /// The phase changed: draw the pill anew.
    Redraw,
    /// The click is refused: the pill's hint says what to finish first.
    Refuse,
    /// Download and install this release.
    Install(Release),
    /// Save the project and start the installed executable.
    Restart { release: Release, exe: P },
    /// Look now and then whether the running work has ended.
    WaitForIdle,
    /// Keep looking.
    KeepWaiting,
    /// Stop looking: the update no longer waits.
    StopWaiting,
}

/// The next phase and the action after `event` in `phase`.
pub open spec fn spec_step<P>(phase: Phase<P>, event: UpdateEvent<P>) -> (Phase<P>, UpdateAction<P>) {
    match event {
        UpdateEvent::Found(release) => {
            let replace = match phase {
                Phase::Idle => true,
                Phase::Available(known) => known.tag@ != release.tag@,
                Phase::Failed { release: known, .. } => known.tag@ != release.tag@,
                _ => false,
            };
            if replace {
                (Phase::Available(release), UpdateAction::Redraw)
            } else {
                (phase, UpdateAction::Nothing)
            }
        },
        UpdateEvent::Clicked { working } => match phase {
            Phase::Available(release) => if working {
                (Phase::Available(release), UpdateAction::Refuse)
            } else {
                (Phase::Installing(release), UpdateAction::Install(release))
            },
            Phase::Failed { release, error } => if working {
                (Phase::Failed { release, error }, UpdateAction::Refuse)
            } else {
                (Phase::Installing(release), UpdateAction::Install(release))
            },
            Phase::ReadyToRestart { release, exe } => if working {
                (Phase::ReadyToRestart { release, exe }, UpdateAction::Refuse)
            } else {
                (Phase::Restarting, UpdateAction::Restart { release, exe })
            },
            _ => (phase, UpdateAction::Nothing),
        },
        UpdateEvent::Installed { release, outcome, working } => match outcome {
            Ok(exe) => if working {
                (Phase::ReadyToRestart { release, exe }, UpdateAction::WaitForIdle)
            } else {
                (Phase::Restarting, UpdateAction::Restart { release, exe })
            },
            Err(error) => (Phase::Failed { release, error }, UpdateAction::Redraw),
        },
        UpdateEvent::RelaunchFailed { release, error } => (
            Phase::Failed { release, error },
            UpdateAction::Redraw,
        ),
        UpdateEvent::IdleCheck { working } => match phase {
            Phase::ReadyToRestart { release, exe } => if working {
                (Phase::ReadyToRestart { release, exe }, UpdateAction::KeepWaiting)
            } else {
                (Phase::Restarting, UpdateAction::Restart { release, exe })
            },
            _ => (phase, UpdateAction::StopWaiting),
        },
        UpdateEvent::Dismissed => match phase {
            Phase::Failed { .. } => (Phase::Idle, UpdateAction::Redraw),
            _ => (phase, UpdateAction::Nothing),
        },
    }
}

/// Whether two tags are the same text.
fn same_tag(a: &String, b: &String) -> (r: bool)
    ensures
        r == (a@ == b@),
{
    crate::chars::str_equal(a.as_str(), b.as_str())
}

/// Moves the self-update on after `event`.
pub fn step<P>(phase: Phase<P>, event: UpdateEvent<P>) -> (r: (Phase<P>, UpdateAction<P>))
    ensures
        r == spec_step(phase, event),
{
    match event {
        UpdateEvent::Found(release) => {
            let replace = match &phase {
                Phase::Idle => true,
                Phase::Available(known) => !same_tag(&known.tag, &release.tag),
                Phase::Failed { release: known, .. } => !same_tag(&known.tag, &release.tag),
                _ => false,
            };
            if replace {
                (Phase::Available(release), UpdateAction::Redraw)
            } else {
                (phase, UpdateAction::Nothing)
            }
        },
        UpdateEvent::Clicked { working } => match phase {
            Phase::Available(release) => if working {
                (Phase::Available(release), UpdateAction::Refuse)
            } else {
                let again = release.duplicate();
                (Phase::Installing(release), UpdateAction::Install(again))
            },
            Phase::Failed { release, error } => if working {
                (Phase::Failed { release, error }, UpdateAction::Refuse)
            } else {
                let again = release.duplicate();
                (Phase::Installing(release), UpdateAction::Install(again))
            },
            Phase::ReadyToRestart { release, exe } => if working {
                (Phase::ReadyToRestart { release, exe }, UpdateAction::Refuse)
            } else {
                (Phase::Restarting, UpdateAction::Restart { release, exe })
            },
            other => (other, UpdateAction::Nothing),
        },
        UpdateEvent::Installed { release, outcome, working } => match outcome {
            Ok(exe) => if working {
                (Phase::ReadyToRestart { release, exe }, UpdateAction::WaitForIdle)
            } else {
                (Phase::Restarting, UpdateAction::Restart { release, exe })
            },
            Err(error) => (Phase::Failed { release, error }, UpdateAction::Redraw),
        },
        UpdateEvent::RelaunchFailed { release, error } => (
            Phase::Failed { release, error },
            UpdateAction::Redraw,
        ),
        UpdateEvent::IdleCheck { working } => match phase {
            Phase::ReadyToRestart { release, exe } => if working {
                (Phase::ReadyToRestart { release, exe }, UpdateAction::KeepWaiting)
            } else {
                (Phase::Restarting, UpdateAction::Restart { release, exe })
            },
            other => (other, UpdateAction::StopWaiting),
        },
        UpdateEvent::Dismissed => match phase {
            Phase::Failed { .. } => (Phase::Idle, UpdateAction::Redraw),
            other => (other, UpdateAction::Nothing),
        },
    }
}

/// Whether `event` reports an export or an upload as running.
pub open spec fn reports_work<P>(event: UpdateEvent<P>) -> bool {
    match event {
        UpdateEvent::Clicked { working } => working,
        UpdateEvent::Installed { working, .. } => working,
        UpdateEvent::IdleCheck { working } => working,
        _ => false,
    }
}

/// A running export or upload is never cut short: while one is reported, no event
/// starts an install or a restart.
pub proof fn law_work_is_never_cut_short<P>(phase: Phase<P>, event: UpdateEvent<P>)
    requires
        reports_work(event),
    ensures
        !(spec_step(phase, event).1 is Install),
        !(spec_step(phase, event).1 is Restart),
{
}

/// A refused click leaves the phase as it was.
pub proof fn law_refusal_keeps_the_phase<P>(phase: Phase<P>, event: UpdateEvent<P>)
    requires
        spec_step(phase, event).1 is Refuse,
    ensures
        spec_step(phase, event).0 == phase,
{
}

/// A release found while an install, a restart or a waiting restart is under way does
/// not replace it.
pub proof fn law_a_found_release_never_interrupts<P>(phase: Phase<P>, release: Release)
    requires
        phase is Installing || phase is Restarting || phase is ReadyToRestart,
    ensures
        spec_step(phase, UpdateEvent::Found(release)) == (phase, UpdateAction::<P>::Nothing),
{
}

/// The phase follows the action: an install shows as installing that release, a
/// restart as restarting.
pub proof fn law_the_phase_follows_the_action<P>(phase: Phase<P>, event: UpdateEvent<P>)
    ensures
        spec_step(phase, event).1 matches UpdateAction::Install(release) ==> spec_step(
            phase,
            event,
        ).0 == Phase::<P>::Installing(release),
        spec_step(phase, event).1 is Restart ==> spec_step(phase, event).0 is Restarting,
{
}

/// A failed update is offered again: a click retries the same release.
pub proof fn law_a_failed_update_can_be_retried<P>(release: Release, error: UpdateError)
    ensures
        spec_step(Phase::<P>::Failed { release, error }, UpdateEvent::Clicked { working: false })
            == (Phase::<P>::Installing(release), UpdateAction::<P>::Install(release)),
{
}

// ---------------------------------------------------------------------------------
// The pill

/// The bar under the pill's label.
#[derive(Clone, Copy, Debug, PartialEq, Eq, Structural)]
pub enum PillBar {
    /// No bar.
    Hidden,
    /// The download's progress.
    Download,
    /// A full bar.
    Full,
}

/// How the pill shows a phase: the translation keys of its label and hint, its
/// icon, its bar, whether it shows a failure and whether it takes clicks.
#[derive(Clone, Copy, Debug, PartialEq, Eq)]
pub struct PillLook {
    pub label_key: &'static str,
    pub glyph: Option<&'static str>,
    pub hint_key: Option<&'static str>,
    pub bar: PillBar,
    pub failed: bool,
    pub clickable: bool,
}

pub open spec fn opt_str_view(o: Option<&'static str>) -> Option<Seq<char>> {
    match o {
        Some(s) => Some(s@),
        None => None,
    }
}

/// How the pill shows `phase`; `busy_notice`: a click was refused a moment ago, and a
/// pill with a hint then says what to finish first instead.
pub fn pill_look<P>(phase: &Phase<P>, busy_notice: bool) -> (look: Option<PillLook>)
    ensures
        phase is Idle <==> look is None,
        look matches Some(l) ==> {
            &&& l.clickable == !phase.spec_busy()
            &&& l.failed == (phase is Failed)
            &&& l.bar == (match phase {
                Phase::Installing(_) => PillBar::Download,
                Phase::Restarting => PillBar::Full,
                _ => PillBar::Hidden,
            })
            &&& l.label_key@ == (match phase {
                Phase::Available(_) => "update.available"@,
                Phase::Installing(_) => "update.installing"@,
                Phase::Restarting => "update.restarting"@,
                Phase::ReadyToRestart { .. } => "update.ready"@,
                _ => "update.failed"@,
            })
            &&& opt_str_view(l.glyph) == (match phase {
                Phase::Available(_) => Some("download04"@),
                Phase::ReadyToRestart { .. } => Some("download04"@),
                Phase::Failed { .. } => Some("alert-circle"@),
                _ => None,
            })
            &&& opt_str_view(l.hint_key) == (match phase {
                Phase::Available(_) => Some(
                    if busy_notice {
                        "update.busy"@
                    } else {
                        "update.availableHint"@
                    },
                ),
                Phase::ReadyToRestart { .. } => Some(
                    if busy_notice {
                        "update.busy"@
                    } else {
                        "update.readyHint"@
                    },
                ),
                Phase::Failed { error, .. } => Some(
                    if busy_notice {
                        "update.busy"@
                    } else {
                        error.message_key_spec()
                    },
                ),
                _ => None,
            })
        },
{
    let (label_key, glyph, hint_key, bar, failed): (
        &'static str,
        Option<&'static str>,
        Option<&'static str>,
        PillBar,
        bool,
    ) = match phase {
        Phase::Idle => return None,
        Phase::Available(_) => (
            "update.available",
            Some("download04"),
            Some("update.availableHint"),
            PillBar::Hidden,
            false,
        ),
        Phase::Installing(_) => ("update.installing", None, None, PillBar::Download, false),
        Phase::Restarting => ("update.restarting", None, None, PillBar::Full, false),
        Phase::ReadyToRestart { .. } => (
            "update.ready",
            Some("download04"),
            Some("update.readyHint"),
            PillBar::Hidden,
            false,
        ),
        Phase::Failed { error, .. } => (
            "update.failed",
            Some("alert-circle"),
            Some(error.message_key()),
            PillBar::Hidden,
            true,
        ),
    };
    let hint_key = if busy_notice && hint_key.is_some() {
        Some("update.busy")
    } else {
        hint_key
    };
    Some(PillLook { label_key, glyph, hint_key, bar, failed, clickable: !phase.busy() })
}

} // verus!
