use scx_simulator::layered::{
    Double, LayerGrowthAlgo, LayerKind, LayerMatch, LayerPlacement, DISALLOW_AFTER_NEVER,
};
use scx_simulator::layered_config::{
    lower, resolve_cpus_range, CommonJson, ConfinedJson, Disposition, FracRange, GroupedJson,
    LayerConfigError, LayerConfigOptions, LayerKindJson, LayerMatchJson, LayerSpecJson,
    LoadedLayerConfig, Unsupported,
};

fn double(v: f64) -> Double {
    Double(v.to_bits())
}

fn common() -> CommonJson {
    CommonJson {
        min_exec_us: 0,
        yield_ignore: double(0.0),
        slice_us: 0,
        fifo: false,
        preempt: false,
        preempt_first: false,
        exclusive: false,
        allow_node_aligned: None,
        skip_remote_node: false,
        prev_over_idle_core: false,
        weight: 0,
        disallow_open_after_us: None,
        disallow_preempt_after_us: None,
        xllc_mig_min_ns: 0,
        idle_smt: None,
        growth_algo: None,
        util_peak_half_life_ms: None,
        perf: None,
        idle_resume_us: None,
        nodes: vec![],
        llcs: vec![],
        placement: None,
        member_expire_ms: 0,
        xnuma_threshold: None,
        xnuma_threshold_delta: None,
        unknown: vec![],
    }
}

fn open(name: &str, common: CommonJson, matches: Vec<Vec<LayerMatchJson>>) -> LayerSpecJson {
    LayerSpecJson {
        name: name.to_string(),
        template: false,
        matches,
        kind: LayerKindJson::Open(common),
    }
}

fn rest() -> LayerSpecJson {
    open("rest", common(), vec![vec![]])
}

fn confined(common: CommonJson) -> ConfinedJson {
    ConfinedJson {
        util_range: (double(0.5), double(0.8)),
        cpus_range: None,
        cpus_range_frac: None,
        membw_gb: false,
        protected: false,
        common,
    }
}

fn with_rule(rule: LayerMatchJson) -> Vec<LayerSpecJson> {
    vec![open("batch", common(), vec![vec![rule]]), rest()]
}

fn load(specs: &Vec<LayerSpecJson>) -> Result<LoadedLayerConfig, LayerConfigError> {
    lower(specs, &LayerConfigOptions::new(8))
}

fn loaded(specs: &Vec<LayerSpecJson>) -> LoadedLayerConfig {
    match load(specs) {
        Ok(l) => l,
        Err(e) => panic!("{}", e.text()),
    }
}

fn said(specs: &Vec<LayerSpecJson>) -> String {
    match load(specs) {
        Ok(_) => panic!("accepted"),
        Err(e) => e.text(),
    }
}

#[test]
fn items_know_their_names() {
    let all = Unsupported::all();
    assert_eq!(all.len(), 17);
    for item in all {
        assert_eq!(Unsupported::from_json_name(item.json_name()), Some(item));
        assert!(!item.reason().is_empty());
    }
    assert_eq!(Unsupported::from_json_name("weight"), None);
    assert_eq!(Unsupported::MatchCgroupRegex.disposition(), Disposition::Fatal);
    assert_eq!(Unsupported::FieldMembwGb.disposition(), Disposition::Refusable);
    assert_eq!(Unsupported::FieldIdleSmt.disposition(), Disposition::DeprecatedUpstream);
}

#[test]
fn a_plain_layer_gets_the_defaults() {
    let l = loaded(&vec![rest()]);
    assert!(l.caveats().is_empty());
    assert_eq!(l.specs.len(), 1);
    let s = &l.specs[0];
    assert_eq!(s.name, "rest");
    assert_eq!(s.kind, LayerKind::Open);
    assert_eq!(s.weight, 100);
    assert_eq!(s.slice_ns, 20_000_000);
    assert_eq!(s.disallow_open_after_ns, 40_000_000);
    assert_eq!(s.disallow_preempt_after_ns, 80_000_000);
    assert_eq!(s.matches, vec![vec![]]);
    assert_eq!(s.perf, 0);
    assert!(s.util_range.is_none() && s.cpus_range.is_none());
}

#[test]
fn what_is_set_is_kept() {
    let mut c = common();
    c.min_exec_us = 5;
    c.slice_us = 800;
    c.weight = 20_000;
    c.perf = Some(1 << 40);
    c.disallow_open_after_us = Some(7);
    c.disallow_preempt_after_us = Some(u64::MAX);
    c.growth_algo = Some(LayerGrowthAlgo::RoundRobin);
    c.nodes = vec![1, 0];
    c.xnuma_threshold = Some((double(0.25), double(0.75)));
    let mut kind = confined(c);
    kind.cpus_range = Some((2, 4));
    kind.protected = true;
    let specs = vec![
        LayerSpecJson {
            name: "batch".to_string(),
            template: false,
            matches: vec![vec![LayerMatchJson::CommPrefix("cc".to_string())]],
            kind: LayerKindJson::Confined(kind),
        },
        rest(),
    ];
    let l = loaded(&specs);
    let s = &l.specs[0];
    assert_eq!(s.kind, LayerKind::Confined);
    assert_eq!(s.min_exec_ns, 5_000);
    assert_eq!(s.slice_ns, 800_000);
    assert_eq!(s.weight, 10_000);
    assert_eq!(s.perf, u32::MAX);
    assert_eq!(s.disallow_open_after_ns, 7_000);
    assert_eq!(s.disallow_preempt_after_ns, DISALLOW_AFTER_NEVER);
    assert_eq!(s.growth_algo, LayerGrowthAlgo::RoundRobin);
    assert_eq!(s.nodes, vec![1, 0]);
    assert_eq!(s.cpus_range, Some((2, 4)));
    assert_eq!(s.util_range, Some((double(0.5), double(0.8))));
    assert_eq!(s.xnuma_threshold, (double(0.25), double(0.75)));
    assert!(s.protected);
    assert_eq!(s.matches, vec![vec![LayerMatch::CommPrefix("cc".to_string())]]);
}

#[test]
fn a_preempting_layer_is_never_disallowed() {
    let mut c = common();
    c.preempt = true;
    c.disallow_open_after_us = Some(7);
    let l = loaded(&vec![open("rest", c, vec![vec![]])]);
    assert_eq!(l.specs[0].disallow_open_after_ns, DISALLOW_AFTER_NEVER);
    assert_eq!(l.specs[0].disallow_preempt_after_ns, DISALLOW_AFTER_NEVER);
}

#[test]
fn excluding_rules_are_negated() {
    let l = loaded(&with_rule(LayerMatchJson::CommPrefixExclude("x".to_string())));
    assert_eq!(
        l.specs[0].matches[0][0],
        LayerMatch::Not(Box::new(LayerMatch::CommPrefix("x".to_string())))
    );
    let l = loaded(&with_rule(LayerMatchJson::UIDEquals(7)));
    assert_eq!(l.specs[0].matches[0][0], LayerMatch::UserIdEquals(7));
}

#[test]
fn fractions_become_cpus() {
    let frac = |low: f64, high: f64, low_cpus, high_cpus| FracRange {
        low: double(low),
        high: double(high),
        shown: format!("[{low}, {high}]"),
        low_cpus,
        high_cpus,
    };
    assert_eq!(resolve_cpus_range(Some((3, 5)), &None, 8), Some((3, 5)));
    assert_eq!(resolve_cpus_range(None, &Some(frac(0.25, 0.5, 2, 4)), 8), Some((2, 4)));
    assert_eq!(resolve_cpus_range(None, &Some(frac(0.0, 0.0, 0, 0)), 8), Some((1, 1)));
    assert_eq!(resolve_cpus_range(None, &None, 8), None);

    let mut kind = confined(common());
    kind.cpus_range_frac = Some(frac(0.5, 1.5, 4, 12));
    let layer = |kind: ConfinedJson| {
        vec![
            LayerSpecJson {
                name: "b".to_string(),
                template: false,
                matches: vec![vec![LayerMatchJson::NiceAbove(0)]],
                kind: LayerKindJson::Confined(kind),
            },
            rest(),
        ]
    };
    assert_eq!(
        said(&layer(kind)),
        "invalid layer config: layers[0] \"b\": cpus_range_frac values must be between 0.0 and \
         1.0, got [0.5, 1.5]"
    );
    let mut kind = confined(common());
    kind.cpus_range = Some((1, 2));
    kind.cpus_range_frac = Some(frac(0.5, 1.0, 4, 8));
    assert_eq!(
        said(&layer(kind)),
        "invalid layer config: layers[0] \"b\": cpus_range cannot be used with cpus_range_frac"
    );
}

#[test]
fn a_refused_rule_cannot_be_waived() {
    for (rule, name) in [
        (LayerMatchJson::CgroupRegex, "CgroupRegex"),
        (LayerMatchJson::NSPIDEquals, "NSPIDEquals"),
        (LayerMatchJson::NSEquals, "NSEquals"),
        (LayerMatchJson::CmdJoin, "CmdJoin"),
        (LayerMatchJson::UsedGpuTid, "UsedGpuTid"),
        (LayerMatchJson::UsedGpuPid, "UsedGpuPid"),
        (LayerMatchJson::HintEquals, "HintEquals"),
        (LayerMatchJson::SystemCpuUtilBelow, "SystemCpuUtilBelow"),
        (LayerMatchJson::DsqInsertBelow, "DsqInsertBelow"),
    ] {
        let mut opts = LayerConfigOptions::new(8);
        let why = opts.waive(&vec![name.to_string()]).err().unwrap();
        assert_eq!(
            why,
            vec![format!(
                "{name}: not waivable — dropping a match rule changes which tasks the layer captures"
            )]
        );
        match lower(&with_rule(rule), &opts) {
            Err(LayerConfigError::Unsupported(r)) => {
                assert_eq!(r.len(), 1);
                assert_eq!(r[0].item.json_name(), name);
                assert_eq!(r[0].site, "layers[0] \"batch\" matches[0][0]");
            }
            _ => panic!("{name}"),
        }
    }
    assert!(said(&with_rule(LayerMatchJson::CmdJoin)).ends_with("captures."));
}

#[test]
fn a_refused_field_can_be_waived() {
    let mut c = common();
    c.idle_resume_us = Some(10);
    c.util_peak_half_life_ms = Some(5);
    let specs = vec![open("rest", c, vec![vec![]])];
    let text = said(&specs);
    assert!(text.starts_with("layer config asks for 2 thing(s) scxsim does not apply:\n"));
    assert!(text.ends_with(
        "Waivable with --layer-config-drop, accepting that they are NOT applied: \
         idle_resume_us,util_peak_half_life_ms"
    ));

    let mut opts = LayerConfigOptions::new(8);
    let names = vec!["idle_resume_us".to_string(), "util_peak_half_life_ms".to_string()];
    assert!(opts.waive(&names).is_ok());
    assert!(opts.is_waived(Unsupported::FieldIdleResumeUs));
    assert!(!opts.is_waived(Unsupported::FieldMembwGb));
    let l = match lower(&specs, &opts) {
        Ok(l) => l,
        Err(e) => panic!("{}", e.text()),
    };
    let caveats = l.caveats();
    assert_eq!(caveats.len(), 2);
    assert!(caveats[0].starts_with("DROPPED (waived): layers[0] \"rest\": idle_resume_us — "));
}

#[test]
fn what_cannot_be_waived_is_told() {
    let mut opts = LayerConfigOptions::new(8);
    let names = vec!["idle_smt".to_string(), "membw_gb".to_string(), "colour".to_string()];
    assert_eq!(
        opts.waive(&names).err().unwrap(),
        vec![
            "idle_smt: not waivable — scx_layered ignores it too, so there is nothing to waive",
            "colour: not a refusable scx_layered config field",
        ]
    );
    assert!(opts.is_waived(Unsupported::FieldMembwGb));
}

#[test]
fn deprecated_fields_are_noted() {
    let mut c = common();
    c.idle_smt = Some(true);
    c.allow_node_aligned = Some(false);
    let l = loaded(&vec![open("rest", c, vec![vec![]])]);
    assert_eq!(l.deprecated.len(), 2);
    assert!(l.caveats()[0].starts_with(
        "ignored, as scx_layered also ignores it: layers[0] \"rest\": allow_node_aligned"
    ));
}

#[test]
fn unknown_keys_are_refused() {
    let mut c = common();
    c.unknown = vec!["colour".to_string()];
    let specs = vec![open("rest", c, vec![vec![]])];
    assert!(matches!(
        load(&specs),
        Err(LayerConfigError::UnknownKeys(k)) if k == vec!["layers[0] \"rest\": colour".to_string()]
    ));
    assert!(said(&specs).starts_with("layer config has 1 key(s)"));
    let mut c = common();
    c.unknown = vec!["colour".to_string()];
    c.idle_resume_us = Some(1);
    let specs = vec![open("rest", c, vec![vec![]])];
    assert!(matches!(
        load(&specs),
        Err(LayerConfigError::Both { unknown, unsupported })
            if unknown.len() == 1 && unsupported.len() == 1
    ));
}

#[test]
fn a_field_of_another_kind_is_noted() {
    let mut c = common();
    c.unknown = vec!["util_range".to_string()];
    let l = loaded(&vec![open("rest", c, vec![vec![]])]);
    assert_eq!(l.notes.len(), 1);
    assert!(l.notes[0].starts_with("layers[0] \"rest\": util_range is not a field of the "));
}

#[test]
fn bandwidth_and_templates_are_found() {
    let mut grouped = GroupedJson {
        util_range: (double(0.1), double(0.2)),
        util_includes_open_cputime: true,
        cpus_range: None,
        cpus_range_frac: None,
        membw_gb: true,
        protected: false,
        idle_confined: true,
        common: common(),
    };
    grouped.common.growth_algo = Some(LayerGrowthAlgo::StickyDynamic);
    let specs = vec![
        LayerSpecJson {
            name: "g".to_string(),
            template: true,
            matches: vec![vec![LayerMatchJson::IsKthread(true)]],
            kind: LayerKindJson::Grouped(grouped),
        },
        rest(),
    ];
    match load(&specs) {
        Err(LayerConfigError::Unsupported(r)) => {
            let items: Vec<Unsupported> = r.iter().map(|r| r.item).collect();
            assert_eq!(
                items,
                vec![
                    Unsupported::FieldTemplate,
                    Unsupported::GrowthStickyDynamic,
                    Unsupported::FieldMembwGb,
                ]
            );
        }
        _ => panic!("accepted"),
    }
    assert!(said(&specs).contains(". The other 2 cannot be waived"));
}

#[test]
fn the_shape_is_checked() {
    assert_eq!(said(&vec![]), "invalid layer config: no layer specs");
    let many: Vec<LayerSpecJson> = (0..17).map(|_| rest()).collect();
    assert_eq!(
        said(&many),
        "invalid layer config: 17 layers, but scx_layered is built with MAX_LAYERS=16"
    );
    let text = said(&vec![open("a", common(), vec![]), rest()]);
    assert!(text.starts_with("invalid layer config: layers[0] \"a\" is not the last layer but"));
    let last = open("a", common(), vec![vec![LayerMatchJson::NiceAbove(1)]]);
    assert!(said(&vec![last]).contains("must be the catch-all"));
    let text = said(&with_rule(LayerMatchJson::NumaNode(1)));
    assert_eq!(
        text,
        "invalid layer config: layers[0] \"batch\" matches[0][0]: NumaNode(1), but the scheduler \
         was given 1 node(s) (0-0)"
    );
    let text = said(&with_rule(LayerMatchJson::CommPrefix("a".repeat(17))));
    assert!(text.contains("CommPrefix needle is 17 bytes, but the scheduler's buffer holds 16"));
    let text = said(&with_rule(LayerMatchJson::CgroupPrefix("a\0".to_string())));
    assert!(text.contains("CgroupPrefix needle contains a NUL byte"));
    let mut c = common();
    c.slice_us = u64::MAX;
    let text = said(&vec![open("rest", c, vec![vec![]])]);
    assert!(text.contains("slice_us = 18446744073709551615us overflows"));
}

#[test]
fn dead_rules_and_hidden_layers_are_noted() {
    let specs = vec![
        open("all", common(), vec![vec![]]),
        open("dead", common(), vec![vec![LayerMatchJson::AvgRuntime(9, 9)]]),
        rest(),
    ];
    let l = loaded(&specs);
    assert_eq!(l.notes.len(), 2);
    assert!(l.notes[0].contains("so it matches every task"));
    assert!(l.notes[1].contains("AvgRuntime[9us, 9us) is empty"));
    assert_eq!(l.specs[1].matches[0][0], LayerMatch::AvgRuntime(9, 9));
}

#[test]
fn placements_are_kept() {
    let mut c = common();
    c.placement = Some(LayerPlacement::Floating);
    let l = loaded(&vec![open("rest", c, vec![vec![]])]);
    assert_eq!(l.specs[0].placement, LayerPlacement::Floating);
}
