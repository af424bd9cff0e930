use scx_simulator::sched_config::{
    global_writes, GlobalValue, SchedulerConfigFile, SchedulerSection,
};
use scx_simulator::scheduler_manifest::{schedulers, Codegen, ConfigValue, SchedulerRuntime};
use scx_simulator::scheduler_path::{
    check_override, e9_variant, missing_e9_text, missing_scheduler_text, resolve_scheduler_path,
    scheduler_file, scheduler_prefix_from_path,
};

#[test]
fn files_name_their_scheduler() {
    let name = |f: &str| scheduler_prefix_from_path(f);
    assert_eq!(name("libscx_lavd.so"), Some("lavd".to_string()));
    assert_eq!(name("libscx_lavd_e9.so"), Some("lavd".to_string()));
    assert_eq!(name("libscx_.so"), Some("".to_string()));
    assert_eq!(name("lavd.so"), None);
    assert_eq!(name("libscx_lavd"), None);
    assert_eq!(name("libscx_lavd.so.1"), None);
}

#[test]
fn files_are_looked_for() {
    assert_eq!(scheduler_file("/opt/lib", "lavd", false), "/opt/lib/libscx_lavd.so");
    assert_eq!(scheduler_file("/opt/lib", "lavd", true), "/opt/lib/libscx_lavd_e9.so");
    assert_eq!(e9_variant("libscx_lavd"), Some("libscx_lavd_e9.so".to_string()));
    assert_eq!(e9_variant("libscx_lavd_e9"), None);
}

#[test]
fn missing_files_are_told() {
    assert_eq!(
        missing_scheduler_text("a\"b", "/x", false),
        "unknown scheduler \"a\\\"b\"; use --list-schedulers to see available schedulers"
    );
    assert_eq!(
        missing_scheduler_text("lavd", "/x/libscx_lavd_e9.so", true),
        "e9patch scheduler variant not found: /x/libscx_lavd_e9.so\nBuild with: make -C schedulers \
         e9\n(requires e9tool: third_party/e9patch/e9tool)"
    );
    assert!(missing_e9_text("/y").starts_with("e9patch scheduler variant not found: /y\n"));
}

#[test]
fn an_override_has_the_right_name() {
    assert!(check_override("libscx_lavd.so", "lavd").is_ok());
    assert!(check_override("libscx_lavd_debug.so", "lavd").is_ok());
    let said = check_override("other.so", "lavd").err().unwrap();
    assert!(said.starts_with(
        "--scheduler-file basename must match libscx_lavd*.so (got \"other.so\"); the filename"
    ));
    assert!(check_override("libscx_lavd.a", "lavd").is_err());
}

#[test]
fn a_given_path_wins_over_the_recorded() {
    let given = Some("/a".to_string());
    let recorded = Some("/b".to_string());
    assert_eq!(resolve_scheduler_path(given.clone(), &recorded), "/a");
    assert_eq!(resolve_scheduler_path(given, &None), "/a");
    assert_eq!(resolve_scheduler_path(None, &recorded), "/b");
}

#[test]
fn writes_go_by_type() {
    let config = SchedulerConfigFile {
        scheduler: SchedulerSection {
            bool_globals: vec![("b".to_string(), true)],
            u8_globals: vec![("y".to_string(), 1), ("z".to_string(), 2)],
            u32_globals: vec![("w".to_string(), 3)],
            u64_globals: vec![("a".to_string(), 4)],
        },
    };
    let writes = global_writes(&config);
    let named: Vec<(&str, GlobalValue)> = writes.iter().map(|(n, v)| (n.as_str(), *v)).collect();
    assert_eq!(
        named,
        vec![
            ("b", GlobalValue::Bool(true)),
            ("y", GlobalValue::U8(1)),
            ("z", GlobalValue::U8(2)),
            ("w", GlobalValue::U32(3)),
            ("a", GlobalValue::U64(4)),
        ]
    );
}

#[test]
fn the_schedulers_are_known() {
    let all = schedulers();
    let names: Vec<&str> = all.iter().map(|m| m.name).collect();
    assert_eq!(names, vec!["cosmos", "lavd", "mitosis", "simple", "tickless"]);
    assert_eq!(all[0].codegen, Some(Codegen::CosmosDivZeroGuard));
    assert!(all[1].codegen.is_none());
    assert!(!all[3].strip_const && !all[3].scx_bpf_dir);
    assert_eq!(all[2].runtime.rodata.len(), 8);
    assert!(all[4].runtime.rodata.contains(&("tick_freq", ConfigValue::U64(250))));
    assert!(SchedulerRuntime::empty().rodata.is_empty());
}

#[test]
fn the_number_of_cpus_is_filled_in() {
    assert_eq!(ConfigValue::NumCpus.resolve(6), GlobalValue::U32(6));
    assert_eq!(ConfigValue::U64(5).resolve(6), GlobalValue::U64(5));
    assert_eq!(ConfigValue::U32(5).resolve(6), GlobalValue::U32(5));
    assert_eq!(ConfigValue::Bool(true).resolve(6), GlobalValue::Bool(true));
}
