use shikane::backend::{
    HeadEvent, ModeEvent, ModeSetting, ProtocolAction, ProtocolEvent, WlBackend, WlBackendEvent,
};
use shikane::daemon::{settle_delay, DSMState, DaemonRequest, DaemonStateMachine};
use shikane::mode::{Mode, PhysicalSize, Position};
use shikane::profile::{Output, Profile};
use shikane::search::{Search, SingleSearch};
use shikane::variant::DSMAction::{ApplyVariant, ExecCmd, Inert, Restart, TestVariant, TryNextVariant};
use shikane::variant::VSMInput::{AtomicChangeDone, Cancelled, Failed, Succeeded};
use shikane::variant::VariantState::{Applied, Applying, Discarded, Testing, Untested};

fn output(search: &str, mode: Option<Mode>) -> Output {
    let mut o = Output::enabled(Search::Single(SingleSearch::from_str(search).unwrap()));
    o.mode = mode;
    o.position = Some(Position { x: 0, y: 0 });
    o
}

fn profile(name: &str, outputs: Vec<Output>) -> Profile {
    let mut p = Profile::new(name.to_string(), outputs);
    p.commands = Some(vec![format!("echo {}", name)]);
    p
}

fn add_head(b: &mut WlBackend, head: u64, name: &str, mode: u64, w: i32, h: i32, r: i32) {
    b.handle(ProtocolEvent::ManagerHead(head));
    b.handle(ProtocolEvent::Head(head, HeadEvent::Name(name.to_string())));
    b.handle(ProtocolEvent::Head(head, HeadEvent::PhysicalSize(PhysicalSize { width: 300, height: 200 })));
    b.handle(ProtocolEvent::Head(head, HeadEvent::Mode(mode)));
    b.handle(ProtocolEvent::Mode(mode, ModeEvent::Size { width: w, height: h }));
    b.handle(ProtocolEvent::Mode(mode, ModeEvent::Refresh(r)));
    b.handle(ProtocolEvent::Mode(mode, ModeEvent::Preferred));
}

fn step(dsm: &mut DaemonStateMachine, b: &mut WlBackend, ev: ProtocolEvent) -> Vec<DaemonRequest> {
    b.handle(ev);
    let events = b.drain_event_queue();
    let mut out = Vec::new();
    dsm.process_event_queue(&events, b, &mut out);
    out
}

fn state_name(dsm: &DaemonStateMachine) -> String {
    dsm.state_text()
}

fn laptop_profiles() -> Vec<Profile> {
    vec![
        profile("laptop", vec![output("n=eDP-1", Some(Mode::WiHeRe(1920, 1080, 60000)))]),
        profile(
            "docked",
            vec![
                output("n=eDP-1", Some(Mode::WiHeRe(1920, 1080, 60000))),
                output("n=HDMI-A-1", Some(Mode::WiHeRe(3840, 2160, 60000))),
            ],
        ),
    ]
}

#[test]
fn laptop_only_applies_laptop() {
    let mut b = WlBackend::new();
    add_head(&mut b, 1, "eDP-1", 10, 1920, 1080, 60000);
    let mut dsm = DaemonStateMachine::new(laptop_profiles(), false, false);
    let out = step(&mut dsm, &mut b, ProtocolEvent::ManagerDone(7));
    assert_eq!(b.serial(), Some(7));
    assert_eq!(out.len(), 1);
    match &out[0] {
        DaemonRequest::Test(cfg) => {
            assert_eq!(cfg.len(), 1);
            assert_eq!(cfg[0].head, 1);
            assert!(cfg[0].enable);
            assert_eq!(cfg[0].mode, Some(ModeSetting::Existing(10)));
            assert_eq!(cfg[0].position, Some(Position { x: 0, y: 0 }));
        }
        _ => panic!("expected a test"),
    }
    assert_eq!(state_name(&dsm), "VariantInProgress");
    assert!(b.begin_configuration() == false);
    let out = step(&mut dsm, &mut b, ProtocolEvent::ConfigurationSucceeded);
    assert!(matches!(out[0], DaemonRequest::Apply(_)));
    assert!(b.begin_configuration() == false);
    let out = step(&mut dsm, &mut b, ProtocolEvent::ConfigurationSucceeded);
    assert_eq!(out.len(), 1);
    match &out[0] {
        DaemonRequest::Exec(cmdb) => {
            let list = cmdb.create_command_list();
            assert_eq!(list.len(), 1);
            assert_eq!(list[0].command, "echo laptop");
            assert_eq!(list[0].env_name, "SHIKANE_PROFILE_NAME");
            assert_eq!(list[0].env_value, "laptop");
        }
        _ => panic!("expected commands"),
    }
    match dsm.state() {
        DSMState::VariantApplied(v) => assert_eq!(dsm.profile_manager().profiles()[v.profile].name, "laptop"),
        _ => panic!("expected an applied variant"),
    }
}

#[test]
fn hotplug_switches_to_docked() {
    let mut b = WlBackend::new();
    add_head(&mut b, 1, "eDP-1", 10, 1920, 1080, 60000);
    let mut dsm = DaemonStateMachine::new(laptop_profiles(), true, false);
    let out = step(&mut dsm, &mut b, ProtocolEvent::ManagerDone(1));
    assert!(matches!(out[0], DaemonRequest::Apply(_)));
    step(&mut dsm, &mut b, ProtocolEvent::ConfigurationSucceeded);
    assert_eq!(state_name(&dsm), "VariantApplied");
    add_head(&mut b, 2, "HDMI-A-1", 20, 3840, 2160, 60000);
    let out = step(&mut dsm, &mut b, ProtocolEvent::ManagerDone(2));
    match &out[0] {
        DaemonRequest::Apply(cfg) => assert_eq!(cfg.len(), 2),
        _ => panic!("expected an apply"),
    }
    match dsm.state() {
        DSMState::VariantInProgress(v) => assert_eq!(dsm.profile_manager().profiles()[v.profile].name, "docked"),
        _ => panic!("expected a variant in progress"),
    }
}

#[test]
fn unchanged_heads_keep_applied_variant() {
    let mut b = WlBackend::new();
    add_head(&mut b, 1, "eDP-1", 10, 1920, 1080, 60000);
    let mut dsm = DaemonStateMachine::new(laptop_profiles(), true, false);
    step(&mut dsm, &mut b, ProtocolEvent::ManagerDone(1));
    step(&mut dsm, &mut b, ProtocolEvent::ConfigurationSucceeded);
    assert_eq!(state_name(&dsm), "VariantApplied");
    let out = step(&mut dsm, &mut b, ProtocolEvent::ManagerDone(2));
    assert!(out.is_empty());
    assert_eq!(state_name(&dsm), "VariantApplied");
}

#[test]
fn cancelled_mid_apply_restarts_once() {
    let mut b = WlBackend::new();
    add_head(&mut b, 1, "eDP-1", 10, 1920, 1080, 60000);
    let mut dsm = DaemonStateMachine::new(laptop_profiles(), false, false);
    step(&mut dsm, &mut b, ProtocolEvent::ManagerDone(1));
    let out = step(&mut dsm, &mut b, ProtocolEvent::ConfigurationSucceeded);
    assert!(matches!(out[0], DaemonRequest::Apply(_)));
    let out = step(&mut dsm, &mut b, ProtocolEvent::ConfigurationCancelled);
    let configs = out
        .iter()
        .filter(|r| matches!(r, DaemonRequest::Test(_) | DaemonRequest::Apply(_)))
        .count();
    assert_eq!(configs, 1);
    assert_eq!(state_name(&dsm), "VariantInProgress");
    let out = step(&mut dsm, &mut b, ProtocolEvent::ManagerDone(2));
    assert!(out.is_empty());
}

#[test]
fn resource_end_aborts_batch() {
    let mut b = WlBackend::new();
    add_head(&mut b, 1, "eDP-1", 10, 1920, 1080, 60000);
    b.handle(ProtocolEvent::ManagerDone(1));
    b.handle(ProtocolEvent::ManagerFinished);
    let events = b.drain_event_queue();
    assert_eq!(events, vec![WlBackendEvent::AtomicChangeDone, WlBackendEvent::NeededResourceFinished]);
    let mut dsm = DaemonStateMachine::new(laptop_profiles(), false, false);
    let mut out = Vec::new();
    assert!(dsm.process_event_queue(&events, &b, &mut out));
    assert!(out.is_empty());
    assert!(dsm.has_shutdown());
}

#[test]
fn switch_profile_restricts_choice() {
    let mut b = WlBackend::new();
    add_head(&mut b, 1, "eDP-1", 10, 1920, 1080, 60000);
    let profiles = vec![
        profile("day", vec![output("n=eDP-1", Some(Mode::WiHeRe(1920, 1080, 60000)))]),
        profile("night", vec![output("%eDP", Some(Mode::WiHe(1920, 1080)))]),
    ];
    let mut dsm = DaemonStateMachine::new(profiles, true, false);
    step(&mut dsm, &mut b, ProtocolEvent::ManagerDone(1));
    step(&mut dsm, &mut b, ProtocolEvent::ConfigurationSucceeded);
    match dsm.state() {
        DSMState::VariantApplied(v) => assert_eq!(dsm.profile_manager().profiles()[v.profile].name, "day"),
        _ => panic!("expected day"),
    }
    let mut out = Vec::new();
    assert!(!dsm.switch_profile("evening".to_string(), &b, &mut out));
    assert!(out.is_empty());
    assert!(dsm.switch_profile("night".to_string(), &b, &mut out));
    assert!(matches!(out[0], DaemonRequest::Apply(_)));
    match dsm.state() {
        DSMState::VariantInProgress(v) => assert_eq!(dsm.profile_manager().profiles()[v.profile].name, "night"),
        _ => panic!("expected night"),
    }
}

#[test]
fn oneshot_without_match_ends_with_nothing_applied() {
    let mut b = WlBackend::new();
    add_head(&mut b, 1, "DP-3", 10, 1280, 1024, 75000);
    let mut dsm = DaemonStateMachine::new(laptop_profiles(), false, true);
    let out = step(&mut dsm, &mut b, ProtocolEvent::ManagerDone(1));
    assert!(out.is_empty());
    assert_eq!(state_name(&dsm), "NoVariantApplied");
    assert!(dsm.has_shutdown());
}

#[test]
fn variant_state_machine_table() {
    let table = [
        (Untested, AtomicChangeDone, Testing, TestVariant),
        (Untested, Succeeded, Untested, Inert),
        (Testing, Succeeded, Applying, ApplyVariant),
        (Testing, Cancelled, Discarded, Restart),
        (Testing, Failed, Discarded, TryNextVariant),
        (Testing, AtomicChangeDone, Testing, Inert),
        (Applying, Succeeded, Applied, ExecCmd),
        (Applying, Cancelled, Discarded, Restart),
        (Applying, Failed, Discarded, TryNextVariant),
        (Applying, AtomicChangeDone, Applying, Inert),
        (Applied, AtomicChangeDone, Discarded, Restart),
        (Applied, Failed, Applied, Inert),
        (Discarded, AtomicChangeDone, Discarded, Inert),
    ];
    for (from, input, to, action) in table {
        assert_eq!(from.next(input), (to, action));
        let mut s = from;
        assert_eq!(s.advance(input), action);
        assert_eq!(s, to);
    }
    let mut s = Applied;
    s.reset();
    assert_eq!(s, Untested);
}

#[test]
fn configuration_slot_destroys_before_creating() {
    let mut b = WlBackend::new();
    assert!(!b.begin_configuration());
    assert!(b.begin_configuration());
    assert_eq!(b.handle(ProtocolEvent::ConfigurationFailed), ProtocolAction::DestroyConfiguration);
    assert!(!b.begin_configuration());
}

#[test]
fn finished_mode_leaves_heads() {
    let mut b = WlBackend::new();
    add_head(&mut b, 1, "eDP-1", 10, 1920, 1080, 60000);
    b.handle(ProtocolEvent::Head(1, HeadEvent::CurrentMode(10)));
    assert_eq!(b.handle(ProtocolEvent::Mode(10, ModeEvent::Finished)), ProtocolAction::ReleaseMode(10));
    let heads = b.export_heads().unwrap();
    assert!(heads[0].modes.is_empty());
    assert!(heads[0].current_mode.is_none());
}

#[test]
fn switch_to_unknown_profile_changes_nothing() {
    let mut b = WlBackend::new();
    add_head(&mut b, 1, "eDP-1", 10, 1920, 1080, 60000);
    let mut dsm = DaemonStateMachine::new(laptop_profiles(), false, false);
    step(&mut dsm, &mut b, ProtocolEvent::ManagerDone(1));
    let mut out = Vec::new();
    assert!(!dsm.switch_profile("evening".to_string(), &b, &mut out));
    assert!(out.is_empty());
    assert_eq!(state_name(&dsm), "VariantInProgress");
}

#[test]
fn settle_delay_waits_only_for_changes() {
    assert_eq!(settle_delay(&vec![WlBackendEvent::Succeeded], 300), 0);
    assert_eq!(settle_delay(&vec![WlBackendEvent::Failed, WlBackendEvent::AtomicChangeDone], 300), 300);
    assert_eq!(settle_delay(&vec![], 300), 0);
}

#[test]
fn manager_finished_forgets_serial() {
    let mut b = WlBackend::new();
    b.handle(ProtocolEvent::ManagerDone(4));
    assert_eq!(b.serial(), Some(4));
    b.handle(ProtocolEvent::ManagerFinished);
    assert_eq!(b.serial(), None);
}

#[test]
fn applied_variant_runs_output_commands() {
    let mut b = WlBackend::new();
    add_head(&mut b, 1, "eDP-1", 10, 1920, 1080, 60000);
    let mut o = output("n=eDP-1", Some(Mode::WiHeRe(1920, 1080, 60000)));
    o.commands = Some(vec!["echo out".to_string()]);
    let mut dsm = DaemonStateMachine::new(vec![profile("laptop", vec![o])], true, false);
    step(&mut dsm, &mut b, ProtocolEvent::ManagerDone(1));
    let out = step(&mut dsm, &mut b, ProtocolEvent::ConfigurationSucceeded);
    match &out[0] {
        DaemonRequest::Exec(cmdb) => {
            let list = cmdb.create_command_list();
            assert_eq!(list.len(), 2);
            assert_eq!(list[1].command, "echo out");
            assert_eq!(list[1].env_name, "SHIKANE_OUTPUT_NAME");
            assert_eq!(list[1].env_value, "eDP-1");
        }
        _ => panic!("expected commands"),
    }
    assert!(!dsm.has_shutdown());
}
