use vault_watch::storage_events::{coalesce_step, is_block_event, CoalesceInput, CoalesceState};

#[test]
fn accepts_only_block_subsystem_uevents() {
    assert!(is_block_event(
        b"add@/devices/pci/block/sda\0ACTION=add\0SUBSYSTEM=block\0DEVNAME=sda\0"
    ));
    assert!(!is_block_event(
        b"add@/devices/pci/usb1\0ACTION=add\0SUBSYSTEM=usb\0"
    ));
    assert!(!is_block_event(b"SUBSYSTEM=block-device\0"));
}

#[test]
fn burst_of_events_wakes_one_reconciliation() {
    let mut state = CoalesceState::Idle;
    let mut wakes = 0;
    for input in [CoalesceInput::Event, CoalesceInput::Event, CoalesceInput::Event, CoalesceInput::Closed] {
        let step = coalesce_step(state, input);
        if step.notify {
            wakes += 1;
        }
        state = step.next;
        if step.stop {
            break;
        }
    }
    assert_eq!(wakes, 1);
    assert_eq!(state, CoalesceState::Idle);
}

#[test]
fn quiet_window_closes_a_burst_and_idle_close_is_silent() {
    let step = coalesce_step(CoalesceState::Burst, CoalesceInput::WindowElapsed);
    assert!(step.notify && !step.stop);
    assert_eq!(step.next, CoalesceState::Idle);
    let step = coalesce_step(CoalesceState::Idle, CoalesceInput::Closed);
    assert!(!step.notify && step.stop);
    let step = coalesce_step(CoalesceState::Idle, CoalesceInput::Event);
    assert_eq!(step.next, CoalesceState::Burst);
    assert!(!step.notify && !step.stop);
}
