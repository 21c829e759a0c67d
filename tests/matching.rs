use shikane::backend::{configure_variant, WlConfigurationError};
use shikane::client::{CmdDebug, CmdSwitch, Command, IncludeSearchFields, IpcRequest};
use shikane::convert::ConverterSettings;
use shikane::exec::CommandBuilder;
use shikane::head::{WlBaseHead, WlBaseMode, WlGenericId, WlHead, WlMode};
use shikane::matching::{HopcroftKarpMap, IntermediatePairing, MatchPipelineError, ProfileMatcher};
use shikane::mode::Mode;
use shikane::profile::{Output, Profile};
use shikane::search::{Search, SearchField, SingleSearch};
use shikane::profile_manager::ProfileManager;
use shikane::store::WlStore;

fn head(id: usize, name: &str, modes: Vec<WlMode>) -> WlHead {
    let mut base = WlBaseHead::new();
    base.name = name.to_string();
    base.enabled = true;
    WlHead { base, current_mode: modes.first().copied(), modes, id: WlGenericId(id) }
}

fn mode(id: usize, w: i32, h: i32, r: i32) -> WlMode {
    WlMode { base: WlBaseMode { width: w, height: h, refresh: r, preferred: false }, id: WlGenericId(id) }
}

fn out(search: &str, m: Option<Mode>) -> Output {
    let mut o = Output::enabled(Search::Single(SingleSearch::from_str(search).unwrap()));
    o.mode = m;
    o
}

fn ip(output: usize, head: usize) -> IntermediatePairing {
    IntermediatePairing { output, head, modes: None, specificity: 0 }
}

#[test]
fn matching_keeps_disjoint_pairings() {
    let ips = vec![ip(0, 0), ip(0, 1), ip(1, 0)];
    let both = HopcroftKarpMap::hkmap(&ips, &vec![1, 2]);
    assert_eq!(both.len(), 2);
    let clash = HopcroftKarpMap::hkmap(&ips, &vec![0, 1]);
    assert_eq!(clash.len(), 1);
}

#[test]
fn report_expands_modes() {
    let heads = vec![
        head(1, "A", vec![mode(10, 1920, 1080, 60000), mode(11, 1920, 1080, 59940)]),
        head(2, "B", vec![mode(20, 1920, 1080, 60000), mode(21, 1920, 1080, 50000)]),
    ];
    let p = Profile::new(
        "two".to_string(),
        vec![out("n=A", Some(Mode::WiHe(1920, 1080))), out("n=B", Some(Mode::WiHeRe(1920, 1080, 60000)))],
    );
    let rep = ProfileMatcher::create_report(&p, 3, &heads).ok().unwrap();
    assert_eq!(rep.profile, 3);
    assert_eq!(rep.valid_variants.len(), 2);
    for v in &rep.valid_variants {
        assert_eq!(v.pairings.len(), 2);
        assert_eq!(v.profile, 3);
        let on_b = v.pairings.iter().find(|p| p.output == 1).unwrap();
        assert_eq!(on_b.head, 1);
        assert_eq!(on_b.wl_mode.unwrap().id, WlGenericId(20));
    }
    assert_eq!(rep.valid_variants[0].mode_deviation(), 0);
}

#[test]
fn report_finds_both_assignments() {
    let heads = vec![head(1, "A", vec![]), head(2, "B", vec![])];
    let p = Profile::new("any".to_string(), vec![out("%", None), out("%", None)]);
    let rep = ProfileMatcher::create_report(&p, 0, &heads).ok().unwrap();
    assert_eq!(rep.intermediate_pairings.len(), 4);
    assert_eq!(rep.valid_variants.len(), 2);
    assert_eq!(rep.invalid_subsets.len(), 4);
}

#[test]
fn report_errors() {
    let heads = vec![head(1, "A", vec![]), head(2, "B", vec![])];
    let one = Profile::new("one".to_string(), vec![out("n=A", None)]);
    assert_eq!(ProfileMatcher::create_report(&one, 0, &heads).err(), Some(MatchPipelineError::DifferentInputLength));
    let none = Profile::new("none".to_string(), vec![out("n=C", None), out("n=D", None)]);
    assert_eq!(ProfileMatcher::create_report(&none, 0, &heads).err(), Some(MatchPipelineError::NotEnoughPairings));
    let same = Profile::new("same".to_string(), vec![out("n=A", None), out("%A", None)]);
    assert_eq!(ProfileMatcher::create_report(&same, 0, &heads).err(), Some(MatchPipelineError::LowCardinality));
}

#[test]
fn configuration_errors() {
    let heads = vec![head(1, "A", vec![mode(2, 800, 600, 60000)])];
    let p = Profile::new("p".to_string(), vec![out("n=A", Some(Mode::Best))]);
    let rep = ProfileMatcher::create_report(&p, 0, &heads).ok().unwrap();
    let v = &rep.valid_variants[0];
    let empty = WlStore::new();
    assert_eq!(
        configure_variant(&empty, v, &p.outputs),
        Err(WlConfigurationError::HeadCountMismatch { got: 1, have: 0 })
    );
    let mut replaced = WlStore::new();
    replaced.insert_head(7);
    replaced.insert_head(7);
    assert_eq!(
        configure_variant(&replaced, v, &p.outputs),
        Err(WlConfigurationError::UnknownHead { head: WlGenericId(1) })
    );
    let mut modeless = WlStore::new();
    modeless.insert_head(7);
    assert_eq!(
        configure_variant(&modeless, v, &p.outputs),
        Err(WlConfigurationError::UnknownMode { mode: WlGenericId(2) })
    );
    let mut store = WlStore::new();
    store.insert_head(7);
    store.insert_mode(7, 8).unwrap();
    let cfg = configure_variant(&store, v, &p.outputs).unwrap();
    assert_eq!(cfg[0].head, 7);
    assert_eq!(cfg[0].mode, Some(shikane::backend::ModeSetting::Existing(8)));
}

#[test]
fn converter_builds_matching_profile() {
    let mut h = head(1, "DP-1", vec![mode(2, 2560, 1440, 144000)]);
    h.base.model = "M27".to_string();
    h.base.scale = 512;
    let mut off = head(3, "HDMI-A-1", vec![]);
    off.base.enabled = false;
    let conv = ConverterSettings::new("desk".to_string(), vec![SearchField::Model, SearchField::Name, SearchField::Model])
        .converter();
    let p = conv.profile(&vec![h, off]);
    assert_eq!(p.name, "desk");
    assert_eq!(p.outputs.len(), 2);
    assert_eq!(p.outputs[0].mode, Some(Mode::WiHeRe(2560, 1440, 144000)));
    assert_eq!(p.outputs[0].scale, Some(512));
    assert!(!p.outputs[1].enable);
    match &p.outputs[0].search_pattern {
        Search::Multi(ms) => {
            let texts: Vec<String> = ms.searches.iter().map(|s| s.to_string()).collect();
            assert_eq!(texts, vec!["m=M27".to_string(), "n=DP-1".to_string()]);
        }
        _ => panic!("expected a multi-search"),
    }
}

#[test]
fn client_requests_and_fields() {
    assert_eq!(Command::Debug(CmdDebug::ListReports).request(), IpcRequest::MatchReports);
    assert_eq!(
        Command::Switch(CmdSwitch { name: "night".to_string() }).request(),
        IpcRequest::SwitchProfile("night".to_string())
    );
    assert_eq!(
        IncludeSearchFields::default().fields(),
        vec![SearchField::Model, SearchField::Serial, SearchField::Vendor]
    );
}

#[test]
fn head_commands_replace_by_name() {
    let mut cmdb = CommandBuilder::new("p".to_string());
    cmdb.profile_commands(vec!["a".to_string()]);
    cmdb.insert_head_commands("DP-1".to_string(), vec!["x".to_string()]);
    cmdb.insert_head_commands("DP-1".to_string(), vec!["y".to_string(), "z".to_string()]);
    let list = cmdb.create_command_list();
    let cmds: Vec<&str> = list.iter().map(|c| c.command.as_str()).collect();
    assert_eq!(cmds, vec!["a", "y", "z"]);
    assert_eq!(list[1].env_name, "SHIKANE_OUTPUT_NAME");
    assert_eq!(list[1].env_value, "DP-1");
}

#[test]
fn laptop_report_is_exact() {
    let heads = vec![head(1, "eDP-1", vec![mode(2, 1920, 1080, 60000)])];
    let mut o = out("n=eDP-1", Some(Mode::WiHeRe(1920, 1080, 60000)));
    o.position = Some(shikane::mode::Position { x: 0, y: 0 });
    let p = Profile::new("laptop".to_string(), vec![o]);
    let rep = ProfileMatcher::create_report(&p, 0, &heads).ok().unwrap();
    assert_eq!(rep.valid_variants.len(), 1);
    assert_eq!(rep.valid_subsets.len(), 1);
    let v = &rep.valid_variants[0];
    assert_eq!(v.pairings.len(), 1);
    assert_eq!(v.pairings[0].wl_mode.unwrap().id, WlGenericId(2));
    assert_eq!(v.mode_deviation(), 0);
    assert!(rep.invalid_subsets.is_empty());
    assert!(rep.unpaired_heads.is_empty());
    assert!(rep.unpaired_outputs.is_empty());
    assert!(rep.unrelated_pairings.is_empty());
}

#[test]
fn cache_compares_identities_with_multiplicity() {
    let a = head(1, "A", vec![]);
    let mut pm = ProfileManager::new(vec![]);
    pm.generate_variants(vec![a.clone(), a.clone()]);
    assert!(!pm.is_cache_outdated(&vec![a.clone(), a.clone()]));
    assert!(pm.is_cache_outdated(&vec![a.clone()]));
    let b = head(2, "B", vec![]);
    pm.generate_variants(vec![a.clone(), b.clone()]);
    assert!(!pm.is_cache_outdated(&vec![b.clone(), a.clone()]));
}

#[test]
fn unknown_head_reported_before_modes() {
    let heads = vec![head(1, "A", vec![mode(2, 800, 600, 60000)])];
    let p = Profile::new("p".to_string(), vec![out("n=A", Some(Mode::Best))]);
    let rep = ProfileMatcher::create_report(&p, 0, &heads).ok().unwrap();
    let v = &rep.valid_variants[0];
    let mut store = WlStore::new();
    store.insert_head(7);
    store.insert_head(7);
    assert_eq!(
        configure_variant(&store, v, &p.outputs),
        Err(WlConfigurationError::UnknownHead { head: WlGenericId(1) })
    );
}
