use cutix_native::phase::{pill_look, step, Phase, PillBar, UpdateAction, UpdateEvent};
use cutix_native::update::{Release, UpdateError};

fn release(tag: &str) -> Release {
    Release {
        tag: tag.to_string(),
        asset_name: "cutix-linux-x64.tar.gz".to_string(),
        asset_url: format!("https://example.com/{tag}/cutix-linux-x64.tar.gz"),
        checksums_url: format!("https://example.com/{tag}/checksums.txt"),
    }
}

type Exe = String;

#[test]
fn a_found_release_is_offered_and_a_newer_one_replaces_it() {
    let (phase, action) = step::<Exe>(Phase::Idle, UpdateEvent::Found(release("v0.0.3")));
    assert_eq!(phase, Phase::Available(release("v0.0.3")));
    assert_eq!(action, UpdateAction::Redraw);

    let (same, action) = step(phase.clone(), UpdateEvent::Found(release("v0.0.3")));
    assert_eq!(same, phase);
    assert_eq!(action, UpdateAction::Nothing);

    let (newer, _) = step(phase, UpdateEvent::Found(release("v0.0.4")));
    assert_eq!(newer, Phase::Available(release("v0.0.4")));

    let failed: Phase<Exe> = Phase::Failed { release: release("v0.0.3"), error: UpdateError::Network };
    let (offered, _) = step(failed, UpdateEvent::Found(release("v0.0.4")));
    assert_eq!(offered, Phase::Available(release("v0.0.4")));
}

#[test]
fn a_found_release_never_interrupts_an_install() {
    let installing: Phase<Exe> = Phase::Installing(release("v0.0.3"));
    let (phase, action) = step(installing.clone(), UpdateEvent::Found(release("v0.0.4")));
    assert_eq!(phase, installing);
    assert_eq!(action, UpdateAction::Nothing);
    let waiting: Phase<Exe> = Phase::ReadyToRestart { release: release("v0.0.3"), exe: "/opt/cutix/cutix".to_string() };
    let (phase, _) = step(waiting.clone(), UpdateEvent::Found(release("v0.0.4")));
    assert_eq!(phase, waiting);
}

#[test]
fn a_click_installs_unless_work_is_running() {
    let available: Phase<Exe> = Phase::Available(release("v0.0.3"));
    let (phase, action) = step(available.clone(), UpdateEvent::Clicked { working: true });
    assert_eq!(phase, available);
    assert_eq!(action, UpdateAction::Refuse);
    let (phase, action) = step(available, UpdateEvent::Clicked { working: false });
    assert_eq!(phase, Phase::Installing(release("v0.0.3")));
    assert_eq!(action, UpdateAction::Install(release("v0.0.3")));
    let (phase, action) = step(phase, UpdateEvent::Clicked { working: false });
    assert_eq!(phase, Phase::Installing(release("v0.0.3")));
    assert_eq!(action, UpdateAction::Nothing);
}

#[test]
fn an_install_waits_for_running_work_before_restarting() {
    let (phase, action) = step::<Exe>(
        Phase::Installing(release("v0.0.3")),
        UpdateEvent::Installed {
            release: release("v0.0.3"),
            outcome: Ok("/opt/cutix/cutix".to_string()),
            working: true,
        },
    );
    assert_eq!(
        phase,
        Phase::ReadyToRestart { release: release("v0.0.3"), exe: "/opt/cutix/cutix".to_string() }
    );
    assert_eq!(action, UpdateAction::WaitForIdle);
    let (phase, action) = step(phase, UpdateEvent::IdleCheck { working: true });
    assert_eq!(action, UpdateAction::KeepWaiting);
    let (phase, action) = step(phase, UpdateEvent::IdleCheck { working: false });
    assert_eq!(phase, Phase::Restarting);
    assert_eq!(
        action,
        UpdateAction::Restart { release: release("v0.0.3"), exe: "/opt/cutix/cutix".to_string() }
    );
    let (phase, action) = step(phase, UpdateEvent::IdleCheck { working: false });
    assert_eq!(phase, Phase::Restarting);
    assert_eq!(action, UpdateAction::StopWaiting);
}

#[test]
fn a_failed_install_can_be_retried_or_dismissed() {
    let (phase, action) = step::<Exe>(
        Phase::Installing(release("v0.0.3")),
        UpdateEvent::Installed { release: release("v0.0.3"), outcome: Err(UpdateError::Checksum), working: false },
    );
    assert_eq!(phase, Phase::Failed { release: release("v0.0.3"), error: UpdateError::Checksum });
    assert_eq!(action, UpdateAction::Redraw);
    let (retry, action) = step(phase.clone(), UpdateEvent::Clicked { working: false });
    assert_eq!(retry, Phase::Installing(release("v0.0.3")));
    assert_eq!(action, UpdateAction::Install(release("v0.0.3")));
    let (dismissed, _) = step(phase, UpdateEvent::Dismissed);
    assert_eq!(dismissed, Phase::Idle);
    let (still, action) = step::<Exe>(Phase::Available(release("v1")), UpdateEvent::Dismissed);
    assert_eq!(still, Phase::Available(release("v1")));
    assert_eq!(action, UpdateAction::Nothing);
}

#[test]
fn a_failed_restart_reports_the_release() {
    let (phase, _) = step::<Exe>(
        Phase::Restarting,
        UpdateEvent::RelaunchFailed { release: release("v2"), error: UpdateError::Install },
    );
    assert_eq!(phase, Phase::Failed { release: release("v2"), error: UpdateError::Install });
}

#[test]
fn the_pill_shows_each_phase() {
    assert_eq!(pill_look::<Exe>(&Phase::Idle, false), None);
    let available = pill_look::<Exe>(&Phase::Available(release("v1")), false).unwrap();
    assert_eq!(available.label_key, "update.available");
    assert_eq!(available.glyph, Some("download04"));
    assert_eq!(available.hint_key, Some("update.availableHint"));
    assert!(available.clickable);
    assert!(!available.failed);
    let refused = pill_look::<Exe>(&Phase::Available(release("v1")), true).unwrap();
    assert_eq!(refused.hint_key, Some("update.busy"));
    let installing = pill_look::<Exe>(&Phase::Installing(release("v1")), true).unwrap();
    assert_eq!(installing.hint_key, None);
    assert_eq!(installing.bar, PillBar::Download);
    assert!(!installing.clickable);
    let restarting = pill_look::<Exe>(&Phase::Restarting, false).unwrap();
    assert_eq!(restarting.bar, PillBar::Full);
    assert_eq!(restarting.label_key, "update.restarting");
    let failed = pill_look::<Exe>(
        &Phase::Failed { release: release("v1"), error: UpdateError::Archive },
        false,
    )
    .unwrap();
    assert_eq!(failed.hint_key, Some("update.error.archive"));
    assert_eq!(failed.glyph, Some("alert-circle"));
    assert!(failed.failed);
    assert!(Phase::<Exe>::Restarting.busy());
    assert!(!Phase::<Exe>::Idle.busy());
}
